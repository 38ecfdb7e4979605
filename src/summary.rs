//! The profile summary: primary languages and domains, strengths,
//! weaknesses, experience tier and coding style.
use vstd::prelude::*;
use crate::models::{
    category_name, CodingStyle, ProfileSummary, ExperienceLevel, SkillDomain, SkillTrend, texts, DetectedPattern, FindingView, LLMAnalysisResult, SkillCategory, SkillRating,
    StrengthWeakness,
};
use crate::rating::{earliest, latest, RatingEngine};
use crate::text::{is_text, chars_of, decimal, find, find_from, lower_of, lowercase, push_decimal, push_tenths, push_text, string_of, tenths};

verus! {

pub open spec fn finding_views(s: Seq<StrengthWeakness>) -> Seq<FindingView> {
    s.map_values(|f: StrengthWeakness| f@)
}

/// The patterns of all results, in order.
pub open spec fn all_patterns(a: Seq<LLMAnalysisResult>) -> Seq<DetectedPattern>
    decreases a.len(),
{
    if a.len() == 0 { Seq::empty() } else { all_patterns(a.drop_last()) + a.last().patterns@ }
}

pub open spec fn pattern_names(ps: Seq<DetectedPattern>) -> Seq<Seq<char>> {
    ps.map_values(|p: DetectedPattern| p.name@)
}

/// Patterns reported to help quality by more than three tenths.
pub open spec fn good_patterns(a: Seq<LLMAnalysisResult>) -> Seq<DetectedPattern> {
    all_patterns(a).filter(|p: DetectedPattern| p.quality_impact > 300)
}

/// Patterns reported to hurt quality by more than three tenths.
pub open spec fn bad_patterns(a: Seq<LLMAnalysisResult>) -> Seq<DetectedPattern> {
    all_patterns(a).filter(|p: DetectedPattern| p.quality_impact < -300)
}

pub open spec fn quality_sum(a: Seq<LLMAnalysisResult>) -> nat
    decreases a.len(),
{
    if a.len() == 0 { 0 } else { quality_sum(a.drop_last()) + a.last().quality_assessment.code_quality as nat }
}

pub open spec fn docs_sum(a: Seq<LLMAnalysisResult>) -> nat
    decreases a.len(),
{
    if a.len() == 0 { 0 } else { docs_sum(a.drop_last()) + a.last().quality_assessment.documentation_quality as nat }
}

pub open spec fn testing_sum(a: Seq<LLMAnalysisResult>) -> nat
    decreases a.len(),
{
    if a.len() == 0 { 0 } else { testing_sum(a.drop_last()) + a.last().quality_assessment.testing_coverage as nat }
}

/// The number of results, or one when there are none.
pub open spec fn divisor(a: Seq<LLMAnalysisResult>) -> nat {
    if a.len() == 0 { 1 } else { a.len() }
}

pub open spec fn capped(n: nat) -> u8 {
    if n > 255 { 255 } else { n as u8 }
}

pub open spec fn skill_strength(r: SkillRating) -> FindingView {
    FindingView {
        area: r.skill.name@,
        description: "Strong "@ + category_name(r.skill.category) + " proficiency with "@
            + decimal(r.evidence.commit_count as nat) + " commits"@,
        evidence: texts(r.evidence.repositories@),
        score: r.proficiency_score,
    }
}

/// Strengths before ordering: skills scoring at least 70, good patterns, and high mean code quality.
pub open spec fn strength_candidates(ratings: Seq<SkillRating>, a: Seq<LLMAnalysisResult>) -> Seq<FindingView> {
    ratings.filter(|r: SkillRating| r.proficiency_score >= 70).map_values(|r: SkillRating| skill_strength(r))
        + (if good_patterns(a).len() > 0 {
        seq![FindingView {
            area: "Design Patterns"@,
            description: "Uses good design patterns and practices"@,
            evidence: pattern_names(good_patterns(a)),
            score: 75,
        }]
    } else {
        Seq::empty()
    }) + (if quality_sum(a) >= 7 * divisor(a) {
        seq![FindingView {
            area: "Code Quality"@,
            description: "Consistently high code quality (avg: "@ + tenths(quality_sum(a), divisor(a)) + "/10)"@,
            evidence: Seq::empty(),
            score: capped(10 * quality_sum(a) / divisor(a)),
        }]
    } else {
        Seq::empty()
    })
}

// The UTC calendar day of an instant given in seconds, as chrono writes it with `%Y-%m-%d`.
pub uninterp spec fn calendar_day(secs: i64) -> Seq<char>;

/// Relies on chrono's `DateTime::from_timestamp(secs, 0)` and `format("%Y-%m-%d")`:
/// the UTC calendar day of an instant; empty where chrono has no date for it.
#[verifier::external_body]
fn day_text(secs: i64) -> (r: String)
    ensures
        r@ == calendar_day(secs),
{
    match chrono::DateTime::from_timestamp(secs, 0) {
        Some(d) => d.format("%Y-%m-%d").to_string(),
        None => String::new(),
    }
}

pub open spec fn declining_weakness(r: SkillRating) -> FindingView {
    FindingView {
        area: r.skill.name@,
        description: r.skill.name@ + " usage declining over time"@,
        evidence: seq!["Last used: "@ + calendar_day(r.evidence.last_seen)],
        score: r.proficiency_score,
    }
}

/// Weaknesses before ordering: low mean test coverage, low mean documentation
/// quality, declining skills, and patterns that hurt quality.
pub open spec fn weakness_candidates(ratings: Seq<SkillRating>, a: Seq<LLMAnalysisResult>) -> Seq<FindingView> {
    let d = divisor(a);
    (if testing_sum(a) < 300 * d {
        seq![FindingView {
            area: "Testing"@,
            description: "Low test coverage across commits ("@ + decimal((2 * testing_sum(a) + 10 * d) / (20 * d)) + "%)"@,
            evidence: Seq::empty(),
            score: capped(testing_sum(a) / (10 * d)),
        }]
    } else {
        Seq::empty()
    }) + (if docs_sum(a) < 4 * d {
        seq![FindingView {
            area: "Documentation"@,
            description: "Limited documentation quality (avg: "@ + tenths(docs_sum(a), d) + "/10)"@,
            evidence: Seq::empty(),
            score: capped(10 * docs_sum(a) / d),
        }]
    } else {
        Seq::empty()
    }) + ratings.filter(|r: SkillRating| r.trend == SkillTrend::Declining).map_values(|r: SkillRating| declining_weakness(r))
        + (if bad_patterns(a).len() > 0 {
        seq![FindingView {
            area: "Code Patterns"@,
            description: "Some anti-patterns detected in code"@,
            evidence: pattern_names(bad_patterns(a)),
            score: 30,
        }]
    } else {
        Seq::empty()
    })
}

/// Names of the language skills scoring at least 40, in rating order.
pub open spec fn language_names(ratings: Seq<SkillRating>) -> Seq<Seq<char>> {
    ratings.filter(|r: SkillRating| r.skill.category == SkillCategory::Language && r.proficiency_score >= 40)
        .map_values(|r: SkillRating| r.skill.name@)
}

pub open spec fn score_total(ratings: Seq<SkillRating>) -> nat
    decreases ratings.len(),
{
    if ratings.len() == 0 { 0 } else { score_total(ratings.drop_last()) + ratings.last().proficiency_score as nat }
}

/// The whole mean score of the ratings; zero without ratings.
pub open spec fn whole_mean_score(ratings: Seq<SkillRating>) -> nat {
    score_total(ratings) / (if ratings.len() == 0 { 1 } else { ratings.len() })
}

/// Whole years from the earliest first evidence to the latest last evidence.
pub open spec fn years_active(ratings: Seq<SkillRating>) -> nat {
    if ratings.len() == 0 {
        0
    } else {
        let e = earliest(ratings.map_values(|r: SkillRating| r.evidence.first_seen));
        let l = latest(ratings.map_values(|r: SkillRating| r.evidence.last_seen));
        if l > e { ((l - e) / 86400 / 365) as nat } else { 0 }
    }
}

/// The experience tier from the count of skills scoring at least 70, the
/// mean score and the years of activity.
pub open spec fn level_of(high: nat, mean: nat, years: nat) -> ExperienceLevel {
    if high >= 5 && mean >= 70 && years >= 5 {
        ExperienceLevel::Principal
    } else if high >= 4 && mean >= 65 && years >= 4 {
        ExperienceLevel::Staff
    } else if high >= 3 && mean >= 60 && years >= 2 {
        ExperienceLevel::Senior
    } else if high >= 1 && mean >= 50 && years >= 1 {
        ExperienceLevel::Mid
    } else {
        ExperienceLevel::Junior
    }
}

pub open spec fn experience_of(ratings: Seq<SkillRating>) -> ExperienceLevel {
    level_of(
        ratings.filter(|r: SkillRating| r.proficiency_score >= 70).len(),
        whole_mean_score(ratings),
        years_active(ratings),
    )
}

/// A pattern name that speaks of refactoring, in any case.
pub open spec fn names_refactoring(name: Seq<char>) -> bool {
    find(lower_of(name), 0, "refactor"@) is Some
}

pub open spec fn reports_refactoring(a: Seq<LLMAnalysisResult>) -> bool {
    exists|i: int| 0 <= i < all_patterns(a).len() && names_refactoring(#[trigger] all_patterns(a)[i].name@)
}

/// The coding style: mean test coverage, documentation and code quality as
/// fractions in thousandths, and whether any pattern speaks of refactoring.
pub open spec fn style_of(c: CodingStyle, a: Seq<LLMAnalysisResult>) -> bool {
    &&& c.prefers_small_commits
    &&& a.len() == 0 ==> !c.refactors_regularly && c.writes_tests == 0 && c.documents_code == 0 && c.follows_conventions == 0
    &&& a.len() > 0 ==> {
        &&& c.writes_tests == testing_sum(a) / a.len()
        &&& c.documents_code == docs_sum(a) * 100 / a.len()
        &&& c.follows_conventions == quality_sum(a) * 100 / a.len()
        &&& c.refactors_regularly == reports_refactoring(a)
    }
}

/// The earliest and latest of some instants.
fn extremes(v: &Vec<i64>) -> (r: (i64, i64))
    requires
        v@.len() > 0,
    ensures
        r.0 == earliest(v@),
        r.1 == latest(v@),
{
    let mut lo = v[0];
    let mut hi = v[0];
    let mut i: usize = 1;
    assert(v@.take(1).drop_last() =~= Seq::<i64>::empty());
    assert(v@.take(1) =~= seq![lo]);
    while i < v.len()
        invariant
            1 <= i <= v@.len(),
            lo == earliest(v@.take(i as int)),
            hi == latest(v@.take(i as int)),
        decreases v.len() - i,
    {
        let t = v[i];
        proof {
            assert(v@.take(i + 1).drop_last() =~= v@.take(i as int));
            assert(v@.take(i + 1).last() == t);
        }
        if t < lo {
            lo = t;
        }
        if t > hi {
            hi = t;
        }
        i = i + 1;
    }
    assert(v@.take(i as int) =~= v@);
    (lo, hi)
}

pub open spec fn score_class(k: nat, descending: bool) -> u8 {
    if descending { (255 - k) as u8 } else { k as u8 }
}

pub open spec fn with_score(s: Seq<FindingView>, c: u8) -> Seq<FindingView> {
    s.filter(|f: FindingView| f.score == c)
}

/// The findings of the first `n` score classes, class by class, each in input order.
pub open spec fn score_ordered(s: Seq<FindingView>, n: nat, descending: bool) -> Seq<FindingView>
    decreases n,
{
    if n == 0 { Seq::empty() } else { score_ordered(s, (n - 1) as nat, descending) + with_score(s, score_class((n - 1) as nat, descending)) }
}

/// `s` stably ordered by score.
pub open spec fn by_score(s: Seq<FindingView>, descending: bool) -> Seq<FindingView> {
    score_ordered(s, 256, descending)
}

pub open spec fn first_five<T>(s: Seq<T>) -> Seq<T> {
    if s.len() > 5 { s.take(5) } else { s }
}

proof fn lemma_with_score_step(s: Seq<FindingView>, j: int, c: u8)
    requires
        0 <= j < s.len(),
    ensures
        with_score(s.take(j + 1), c) == (if s[j].score == c { with_score(s.take(j), c).push(s[j]) } else { with_score(s.take(j), c) }),
{
    assert(s.take(j + 1).drop_last() =~= s.take(j));
    assert(s.take(j + 1).last() == s[j]);
    reveal_with_fuel(Seq::filter, 1);
}

proof fn lemma_filter_push<T>(s: Seq<T>, x: T, f: spec_fn(T) -> bool)
    ensures
        s.push(x).filter(f) == (if f(x) { s.filter(f).push(x) } else { s.filter(f) }),
{
    assert(s.push(x).drop_last() =~= s);
    reveal_with_fuel(Seq::filter, 1);
}

proof fn lemma_filter_take_step<T>(s: Seq<T>, j: int, f: spec_fn(T) -> bool)
    requires
        0 <= j < s.len(),
    ensures
        s.take(j + 1).filter(f) == (if f(s[j]) { s.take(j).filter(f).push(s[j]) } else { s.take(j).filter(f) }),
{
    assert(s.take(j + 1).drop_last() =~= s.take(j));
    assert(s.take(j + 1).last() == s[j]);
    reveal_with_fuel(Seq::filter, 1);
}

/// A copy of a finding.
fn copy_finding(f: &StrengthWeakness) -> (r: StrengthWeakness)
    ensures
        r@ == f@,
{
    StrengthWeakness {
        area: f.area.clone(),
        description: f.description.clone(),
        evidence: crate::extractor::copy_strings(&f.evidence),
        score: f.score,
    }
}

/// Copies of `items` stably ordered by score, then cut to the first five.
fn order_and_cut(items: &Vec<StrengthWeakness>, descending: bool) -> (r: Vec<StrengthWeakness>)
    ensures
        finding_views(r@) == first_five(by_score(finding_views(items@), descending)),
{
    let ghost fs = finding_views(items@);
    let mut out: Vec<StrengthWeakness> = Vec::new();
    let mut k: u32 = 0;
    while k < 256
        invariant
            fs == finding_views(items@),
            k <= 256,
            finding_views(out@) == score_ordered(fs, k as nat, descending),
        decreases 256 - k,
    {
        let c: u8 = if descending { (255 - k) as u8 } else { k as u8 };
        assert(c == score_class(k as nat, descending));
        let ghost before = finding_views(out@);
        let mut j: usize = 0;
        while j < items.len()
            invariant
                fs == finding_views(items@),
                j <= items@.len(),
                finding_views(out@) == before + with_score(fs.take(j as int), c),
            decreases items.len() - j,
        {
            proof {
                lemma_with_score_step(fs, j as int, c);
                assert(fs[j as int] == items@[j as int]@);
            }
            if items[j].score == c {
                let d = copy_finding(&items[j]);
                let ghost prev = out@;
                out.push(d);
                assert(finding_views(out@) =~= finding_views(prev).push(d@));
            }
            assert(finding_views(out@) =~= before + with_score(fs.take(j + 1), c));
            j = j + 1;
        }
        assert(fs.take(items@.len() as int) =~= fs);
        k = k + 1;
    }
    let ghost full = finding_views(out@);
    out.truncate(5);
    assert(finding_views(out@) =~= first_five(full));
    out
}

impl RatingEngine {
    /// The strengths of a profile: skills scoring at least 70, patterns that
    /// help quality, and consistently high code quality; the five best, by score.
    pub fn detect_strengths(&self, ratings: &Vec<SkillRating>, analyses: &Vec<LLMAnalysisResult>) -> (r: Vec<StrengthWeakness>)
        ensures
            finding_views(r@) == first_five(by_score(strength_candidates(ratings@, analyses@), true)),
    {
        let mut items: Vec<StrengthWeakness> = Vec::new();
        let ghost pred = |r: SkillRating| r.proficiency_score >= 70;
        let mut i: usize = 0;
        while i < ratings.len()
            invariant
                i <= ratings@.len(),
                pred == (|r: SkillRating| r.proficiency_score >= 70),
                finding_views(items@) == ratings@.take(i as int).filter(pred).map_values(|r: SkillRating| skill_strength(r)),
            decreases ratings.len() - i,
        {
            proof {
                lemma_filter_take_step(ratings@, i as int, pred);
            }
            let rating = &ratings[i];
            if rating.proficiency_score >= 70 {
                let mut d: Vec<char> = Vec::new();
                push_text(&mut d, "Strong ");
                let cat = rating.skill.category.name();
                push_text(&mut d, cat.as_str());
                push_text(&mut d, " proficiency with ");
                push_decimal(&mut d, rating.evidence.commit_count as u64);
                push_text(&mut d, " commits");
                let f = StrengthWeakness {
                    area: rating.skill.name.clone(),
                    description: string_of(&d),
                    evidence: crate::extractor::copy_strings(&rating.evidence.repositories),
                    score: rating.proficiency_score,
                };
                assert(f@ == skill_strength(*rating));
                let ghost prev = items@;
                items.push(f);
                assert(finding_views(items@) =~= finding_views(prev).push(f@));
            }
            assert(finding_views(items@) =~= ratings@.take(i + 1).filter(pred).map_values(|r: SkillRating| skill_strength(r)));
            i = i + 1;
        }
        assert(ratings@.take(i as int) =~= ratings@);
        let ghost skills_part = finding_views(items@);
        let good = pattern_names_where(analyses, true);
        if good.len() > 0 {
            let f = StrengthWeakness {
                area: String::from_str("Design Patterns"),
                description: String::from_str("Uses good design patterns and practices"),
                evidence: good,
                score: 75,
            };
            let ghost prev = items@;
            items.push(f);
            assert(finding_views(items@) =~= finding_views(prev).push(f@));
        }
        let ghost with_patterns = finding_views(items@);
        proof {
            let a = analyses@;
            let extra = if good_patterns(a).len() > 0 {
                seq![FindingView {
                    area: "Design Patterns"@,
                    description: "Uses good design patterns and practices"@,
                    evidence: pattern_names(good_patterns(a)),
                    score: 75,
                }]
            } else {
                Seq::empty()
            };
            assert(pattern_names(good_patterns(a)).len() == good_patterns(a).len());
            assert(with_patterns =~= skills_part + extra);
        }
        let totals = quality_totals(analyses);
        let n: u128 = if analyses.len() == 0 { 1 } else { analyses.len() as u128 };
        if totals.2 >= 7 * n {
            let mut d: Vec<char> = Vec::new();
            push_text(&mut d, "Consistently high code quality (avg: ");
            push_tenths(&mut d, totals.2, n);
            push_text(&mut d, "/10)");
            let x: u128 = 10 * totals.2 / n;
            let f = StrengthWeakness {
                area: String::from_str("Code Quality"),
                description: string_of(&d),
                evidence: Vec::new(),
                score: if x > 255 { 255 } else { x as u8 },
            };
            assert(texts(f.evidence@) =~= Seq::<Seq<char>>::empty());
            let ghost prev = items@;
            items.push(f);
            assert(finding_views(items@) =~= finding_views(prev).push(f@));
            assert(n == divisor(analyses@));
            assert(finding_views(items@) =~= with_patterns + seq![f@]);
        } else {
            assert(finding_views(items@) =~= with_patterns + Seq::<FindingView>::empty());
        }
        assert(finding_views(items@) =~= strength_candidates(ratings@, analyses@));
        order_and_cut(&items, true)
    }
}

impl RatingEngine {
    /// The weaknesses of a profile: low test coverage, low documentation
    /// quality, declining skills and patterns that hurt quality; the five
    /// lowest, by score.
    pub fn detect_weaknesses(&self, ratings: &Vec<SkillRating>, analyses: &Vec<LLMAnalysisResult>) -> (r: Vec<StrengthWeakness>)
        ensures
            finding_views(r@) == first_five(by_score(weakness_candidates(ratings@, analyses@), false)),
    {
        let ghost a = analyses@;
        let totals = quality_totals(analyses);
        let n: u128 = if analyses.len() == 0 { 1 } else { analyses.len() as u128 };
        assert(n == divisor(a));
        let mut items: Vec<StrengthWeakness> = Vec::new();
        if totals.0 < 300 * n {
            let pct: u128 = (2 * totals.0 + 10 * n) / (20 * n);
            assert(pct <= 30) by {
                vstd::arithmetic::div_mod::lemma_div_is_ordered((2 * totals.0 + 10 * n) as int, (610 * n) as int, (20 * n) as int);
                assert((610 * n) as int / (20 * n) as int <= 30) by (nonlinear_arith)
                    requires n > 0;
            }
            let mut d: Vec<char> = Vec::new();
            push_text(&mut d, "Low test coverage across commits (");
            push_decimal(&mut d, pct as u64);
            push_text(&mut d, "%)");
            let x: u128 = totals.0 / (10 * n);
            let f = StrengthWeakness {
                area: String::from_str("Testing"),
                description: string_of(&d),
                evidence: Vec::new(),
                score: if x > 255 { 255 } else { x as u8 },
            };
            assert(texts(f.evidence@) =~= Seq::<Seq<char>>::empty());
            items.push(f);
        }
        let ghost part1 = finding_views(items@);
        assert(part1 =~= (if testing_sum(a) < 300 * divisor(a) {
            seq![FindingView {
                area: "Testing"@,
                description: "Low test coverage across commits ("@ + decimal((2 * testing_sum(a) + 10 * divisor(a)) / (20 * divisor(a))) + "%)"@,
                evidence: Seq::empty(),
                score: capped(testing_sum(a) / (10 * divisor(a))),
            }]
        } else {
            Seq::empty()
        }));
        if totals.1 < 4 * n {
            let mut d: Vec<char> = Vec::new();
            push_text(&mut d, "Limited documentation quality (avg: ");
            push_tenths(&mut d, totals.1, n);
            push_text(&mut d, "/10)");
            let x: u128 = 10 * totals.1 / n;
            let f = StrengthWeakness {
                area: String::from_str("Documentation"),
                description: string_of(&d),
                evidence: Vec::new(),
                score: if x > 255 { 255 } else { x as u8 },
            };
            assert(texts(f.evidence@) =~= Seq::<Seq<char>>::empty());
            let ghost prev = items@;
            items.push(f);
            assert(finding_views(items@) =~= finding_views(prev).push(f@));
        }
        let ghost part2 = finding_views(items@);
        let ghost pred = |r: SkillRating| r.trend == SkillTrend::Declining;
        let mut i: usize = 0;
        assert(ratings@.take(0).filter(pred) =~= Seq::<SkillRating>::empty());
        assert(part2 + Seq::<FindingView>::empty() =~= part2);
        while i < ratings.len()
            invariant
                i <= ratings@.len(),
                pred == (|r: SkillRating| r.trend == SkillTrend::Declining),
                finding_views(items@) == part2 + ratings@.take(i as int).filter(pred).map_values(|r: SkillRating| declining_weakness(r)),
            decreases ratings.len() - i,
        {
            proof {
                lemma_filter_take_step(ratings@, i as int, pred);
            }
            let rating = &ratings[i];
            if rating.trend == SkillTrend::Declining {
                let mut d: Vec<char> = Vec::new();
                push_text(&mut d, rating.skill.name.as_str());
                push_text(&mut d, " usage declining over time");
                let mut e: Vec<char> = Vec::new();
                push_text(&mut e, "Last used: ");
                let day = day_text(rating.evidence.last_seen);
                push_text(&mut e, day.as_str());
                let mut ev: Vec<String> = Vec::new();
                ev.push(string_of(&e));
                let f = StrengthWeakness {
                    area: rating.skill.name.clone(),
                    description: string_of(&d),
                    evidence: ev,
                    score: rating.proficiency_score,
                };
                assert(texts(f.evidence@) =~= seq!["Last used: "@ + calendar_day(rating.evidence.last_seen)]);
                assert(f@ == declining_weakness(*rating));
                let ghost prev = items@;
                items.push(f);
                assert(finding_views(items@) =~= finding_views(prev).push(f@));
            }
            assert(finding_views(items@) =~= part2 + ratings@.take(i + 1).filter(pred).map_values(|r: SkillRating| declining_weakness(r)));
            i = i + 1;
        }
        assert(ratings@.take(i as int) =~= ratings@);
        let ghost part3 = finding_views(items@);
        let bad = pattern_names_where(analyses, false);
        if bad.len() > 0 {
            let f = StrengthWeakness {
                area: String::from_str("Code Patterns"),
                description: String::from_str("Some anti-patterns detected in code"),
                evidence: bad,
                score: 30,
            };
            let ghost prev = items@;
            items.push(f);
            assert(finding_views(items@) =~= finding_views(prev).push(f@));
            assert(finding_views(items@) =~= part3 + seq![f@]);
        } else {
            assert(finding_views(items@) =~= part3 + Seq::<FindingView>::empty());
        }
        assert(pattern_names(bad_patterns(a)).len() == bad_patterns(a).len());
        assert(finding_views(items@) =~= weakness_candidates(ratings@, analyses@));
        order_and_cut(&items, false)
    }
}

impl RatingEngine {
    /// Names of up to five language skills scoring at least 40, in rating order.
    pub fn extract_primary_languages(&self, ratings: &Vec<SkillRating>) -> (r: Vec<String>)
        ensures
            texts(r@) == first_five(language_names(ratings@)),
    {
        let ghost pred = |r: SkillRating| r.skill.category == SkillCategory::Language && r.proficiency_score >= 40;
        let mut out: Vec<String> = Vec::new();
        let mut i: usize = 0;
        while i < ratings.len() && out.len() < 5
            invariant
                i <= ratings@.len(),
                pred == (|r: SkillRating| r.skill.category == SkillCategory::Language && r.proficiency_score >= 40),
                texts(out@) == ratings@.take(i as int).filter(pred).map_values(|r: SkillRating| r.skill.name@),
                out@.len() <= 5,
            decreases ratings.len() - i,
        {
            proof {
                lemma_filter_take_step(ratings@, i as int, pred);
            }
            let rating = &ratings[i];
            if rating.skill.category == SkillCategory::Language && rating.proficiency_score >= 40 {
                let ghost prev = out@;
                out.push(rating.skill.name.clone());
                assert(texts(out@) =~= texts(prev).push(rating.skill.name@));
            }
            assert(texts(out@) =~= ratings@.take(i + 1).filter(pred).map_values(|r: SkillRating| r.skill.name@));
            i = i + 1;
        }
        proof {
            lemma_first_five_prefix(ratings@, i as int, pred);
        }
        out
    }

    /// The experience tier of a profile.
    pub fn assess_experience_level(&self, ratings: &Vec<SkillRating>) -> (r: ExperienceLevel)
        ensures
            r == experience_of(ratings@),
    {
        let ghost pred = |r: SkillRating| r.proficiency_score >= 70;
        let mut high: usize = 0;
        let mut total: u128 = 0;
        let mut firsts: Vec<i64> = Vec::new();
        let mut lasts: Vec<i64> = Vec::new();
        let mut i: usize = 0;
        while i < ratings.len()
            invariant
                i <= ratings@.len(),
                pred == (|r: SkillRating| r.proficiency_score >= 70),
                high == ratings@.take(i as int).filter(pred).len(),
                high <= i,
                total == score_total(ratings@.take(i as int)),
                total <= 255 * i,
                firsts@ == ratings@.take(i as int).map_values(|r: SkillRating| r.evidence.first_seen),
                lasts@ == ratings@.take(i as int).map_values(|r: SkillRating| r.evidence.last_seen),
            decreases ratings.len() - i,
        {
            proof {
                lemma_filter_take_step(ratings@, i as int, pred);
                assert(ratings@.take(i + 1).drop_last() =~= ratings@.take(i as int));
            }
            let rating = &ratings[i];
            if rating.proficiency_score >= 70 {
                high = high + 1;
            }
            total = total + rating.proficiency_score as u128;
            firsts.push(rating.evidence.first_seen);
            lasts.push(rating.evidence.last_seen);
            assert(firsts@ =~= ratings@.take(i + 1).map_values(|r: SkillRating| r.evidence.first_seen));
            assert(lasts@ =~= ratings@.take(i + 1).map_values(|r: SkillRating| r.evidence.last_seen));
            i = i + 1;
        }
        assert(ratings@.take(i as int) =~= ratings@);
        let n: u128 = if ratings.len() == 0 { 1 } else { ratings.len() as u128 };
        let mean: u128 = total / n;
        let years: u64 = if ratings.len() == 0 {
            0
        } else {
            let (e, _) = extremes(&firsts);
            let (_, l) = extremes(&lasts);
            if l > e {
                ((l as i128 - e as i128) / 86400 / 365) as u64
            } else {
                0
            }
        };
        if high >= 5 && mean >= 70 && years >= 5 {
            ExperienceLevel::Principal
        } else if high >= 4 && mean >= 65 && years >= 4 {
            ExperienceLevel::Staff
        } else if high >= 3 && mean >= 60 && years >= 2 {
            ExperienceLevel::Senior
        } else if high >= 1 && mean >= 50 && years >= 1 {
            ExperienceLevel::Mid
        } else {
            ExperienceLevel::Junior
        }
    }

    /// The coding style of a profile; small commits are assumed rather than measured.
    pub fn assess_coding_style(&self, analyses: &Vec<LLMAnalysisResult>) -> (r: CodingStyle)
        ensures
            style_of(r, analyses@),
    {
        if analyses.len() == 0 {
            return CodingStyle::baseline();
        }
        let totals = quality_totals(analyses);
        let n = analyses.len() as u128;
        let refactors = any_refactoring(analyses);
        proof {
            vstd::arithmetic::div_mod::lemma_div_is_ordered(totals.0 as int, (u32::MAX as nat * n) as int, n as int);
            vstd::arithmetic::div_mod::lemma_div_by_multiple(u32::MAX as int, n as int);
            vstd::arithmetic::div_mod::lemma_div_is_ordered((totals.1 * 100) as int, (25500 * n) as int, n as int);
            vstd::arithmetic::div_mod::lemma_div_by_multiple(25500, n as int);
            vstd::arithmetic::div_mod::lemma_div_is_ordered((totals.2 * 100) as int, (25500 * n) as int, n as int);
        }
        CodingStyle {
            prefers_small_commits: true,
            writes_tests: (totals.0 / n) as u32,
            documents_code: (totals.1 * 100 / n) as u32,
            refactors_regularly: refactors,
            follows_conventions: (totals.2 * 100 / n) as u32,
        }
    }
}

proof fn lemma_first_five_prefix(s: Seq<SkillRating>, i: int, pred: spec_fn(SkillRating) -> bool)
    requires
        0 <= i <= s.len(),
        i == s.len() || s.take(i).filter(pred).len() >= 5,
    ensures
        s.take(i).filter(pred).map_values(|r: SkillRating| r.skill.name@).len() <= 5
            ==> first_five(s.filter(pred).map_values(|r: SkillRating| r.skill.name@))
                == s.take(i).filter(pred).map_values(|r: SkillRating| r.skill.name@),
    decreases s.len() - i,
{
    if i == s.len() {
        assert(s.take(i) =~= s);
    } else {
        lemma_filter_prefix_extends(s, i, pred);
        let a = s.take(i).filter(pred);
        let b = s.filter(pred);
        if a.len() <= 5 {
            assert(a.len() == 5);
            assert(b.take(5) =~= a);
            assert(b.map_values(|r: SkillRating| r.skill.name@).take(5) =~= a.map_values(|r: SkillRating| r.skill.name@));
        }
    }
}

/// Filtering a prefix gives a prefix of the filtered sequence.
proof fn lemma_filter_prefix_extends<T>(s: Seq<T>, i: int, pred: spec_fn(T) -> bool)
    requires
        0 <= i <= s.len(),
    ensures
        s.take(i).filter(pred).len() <= s.filter(pred).len(),
        s.filter(pred).take(s.take(i).filter(pred).len() as int) == s.take(i).filter(pred),
    decreases s.len() - i,
{
    if i == s.len() {
        assert(s.take(i) =~= s);
        assert(s.filter(pred).take(s.filter(pred).len() as int) =~= s.filter(pred));
    } else {
        lemma_filter_prefix_extends(s, i + 1, pred);
        lemma_filter_take_step(s, i, pred);
        let a = s.take(i).filter(pred);
        let b = s.take(i + 1).filter(pred);
        let c = s.filter(pred);
        assert(c.take(a.len() as int) =~= b.take(a.len() as int));
        assert(b.take(a.len() as int) =~= a);
    }
}

/// Whether any pattern of any result speaks of refactoring.
pub fn any_refactoring(analyses: &Vec<LLMAnalysisResult>) -> (r: bool)
    ensures
        r == reports_refactoring(analyses@),
{
    let needle = chars_of("refactor");
    let mut i: usize = 0;
    while i < analyses.len()
        invariant
            i <= analyses@.len(),
            needle@ == "refactor"@,
            forall|k: int| 0 <= k < all_patterns(analyses@.take(i as int)).len()
                ==> !names_refactoring(#[trigger] all_patterns(analyses@.take(i as int))[k].name@),
        decreases analyses.len() - i,
    {
        let ps = &analyses[i].patterns;
        let ghost base = all_patterns(analyses@.take(i as int));
        proof {
            assert(analyses@.take(i + 1).drop_last() =~= analyses@.take(i as int));
        }
        let mut j: usize = 0;
        while j < ps.len()
            invariant
                j <= ps@.len(),
                i < analyses@.len(),
                ps == analyses@[i as int].patterns,
                base == all_patterns(analyses@.take(i as int)),
                analyses@.take(i + 1).drop_last() == analyses@.take(i as int),
                analyses@.take(i + 1).last() == analyses@[i as int],
                needle@ == "refactor"@,
                forall|k: int| 0 <= k < base.len() ==> !names_refactoring(#[trigger] base[k].name@),
                forall|k: int| 0 <= k < j ==> !names_refactoring(#[trigger] ps@[k].name@),
            decreases ps.len() - j,
        {
            let lowered = lowercase(ps[j].name.as_str());
            let lower = chars_of(lowered.as_str());
            let hit = find_from(&lower, 0, &needle);
            assert(hit.is_some() == names_refactoring(ps@[j as int].name@));
            if hit.is_some() {
                proof {
                    let all = all_patterns(analyses@);
                    lemma_patterns_prefix(analyses@, i + 1);
                    assert(all_patterns(analyses@.take(i + 1)) == base + ps@);
                    assert(all[base.len() + j] == ps@[j as int]);
                }
                return true;
            }
            j = j + 1;
        }
        proof {
            assert(all_patterns(analyses@.take(i + 1)) == base + ps@);
            assert forall|k: int| 0 <= k < all_patterns(analyses@.take(i + 1)).len()
                implies !names_refactoring(#[trigger] all_patterns(analyses@.take(i + 1))[k].name@) by {
                if k < base.len() {
                    assert((base + ps@)[k] == base[k]);
                } else {
                    assert((base + ps@)[k] == ps@[k - base.len()]);
                }
            }
        }
        i = i + 1;
    }
    assert(analyses@.take(i as int) =~= analyses@);
    false
}

/// The patterns of a prefix of the results begin the patterns of all of them.
proof fn lemma_patterns_prefix(a: Seq<LLMAnalysisResult>, i: int)
    requires
        0 <= i <= a.len(),
    ensures
        all_patterns(a.take(i)).len() <= all_patterns(a).len(),
        forall|k: int| 0 <= k < all_patterns(a.take(i)).len() ==> #[trigger] all_patterns(a)[k] == all_patterns(a.take(i))[k],
    decreases a.len() - i,
{
    if i == a.len() {
        assert(a.take(i) =~= a);
    } else {
        lemma_patterns_prefix(a, i + 1);
        assert(a.take(i + 1).drop_last() =~= a.take(i));
    }
}

/// Names of the patterns of all results that help (`good`) or hurt quality by more than three tenths.
pub fn pattern_names_where(analyses: &Vec<LLMAnalysisResult>, good: bool) -> (r: Vec<String>)
    ensures
        texts(r@) == pattern_names(if good { good_patterns(analyses@) } else { bad_patterns(analyses@) }),
{
    let ghost pred = if good { |p: DetectedPattern| p.quality_impact > 300 } else { |p: DetectedPattern| p.quality_impact < -300 };
    let mut out: Vec<String> = Vec::new();
    let mut i: usize = 0;
    while i < analyses.len()
        invariant
            i <= analyses@.len(),
            pred == (if good { |p: DetectedPattern| p.quality_impact > 300 } else { |p: DetectedPattern| p.quality_impact < -300 }),
            texts(out@) == pattern_names(all_patterns(analyses@.take(i as int)).filter(pred)),
        decreases analyses.len() - i,
    {
        let ps = &analyses[i].patterns;
        let ghost base = all_patterns(analyses@.take(i as int));
        proof {
            assert(analyses@.take(i + 1).drop_last() =~= analyses@.take(i as int));
            assert(all_patterns(analyses@.take(i + 1)) == base + ps@);
            assert(ps@.take(0) =~= Seq::<DetectedPattern>::empty());
            assert(base + ps@.take(0) =~= base);
        }
        let mut j: usize = 0;
        while j < ps.len()
            invariant
                j <= ps@.len(),
                pred == (if good { |p: DetectedPattern| p.quality_impact > 300 } else { |p: DetectedPattern| p.quality_impact < -300 }),
                texts(out@) == pattern_names((base + ps@.take(j as int)).filter(pred)),
            decreases ps.len() - j,
        {
            let ghost cur = base + ps@.take(j as int);
            let p = &ps[j];
            proof {
                assert(base + ps@.take(j + 1) =~= cur.push(*p));
                lemma_filter_push(cur, *p, pred);
            }
            let keep = if good { p.quality_impact > 300 } else { p.quality_impact < -300 };
            assert(keep == pred(*p));
            if keep {
                let ghost prev = out@;
                let name = p.name.clone();
                out.push(name);
                assert(texts(out@) =~= texts(prev).push(p.name@));
                assert(pattern_names(cur.filter(pred).push(*p)) =~= pattern_names(cur.filter(pred)).push(p.name@));
            }
            j = j + 1;
        }
        assert(ps@.take(j as int) =~= ps@);
        i = i + 1;
    }
    assert(analyses@.take(i as int) =~= analyses@);
    out
}

/// Sums over all results of estimated test coverage (thousandths), documentation marks and code-quality marks.
pub fn quality_totals(analyses: &Vec<LLMAnalysisResult>) -> (r: (u128, u128, u128))
    ensures
        r.0 == testing_sum(analyses@),
        r.1 == docs_sum(analyses@),
        r.2 == quality_sum(analyses@),
        r.0 <= u32::MAX as nat * analyses@.len(),
        r.1 <= 255 * analyses@.len(),
        r.2 <= 255 * analyses@.len(),
{
    let mut t: u128 = 0;
    let mut d: u128 = 0;
    let mut q: u128 = 0;
    let mut i: usize = 0;
    while i < analyses.len()
        invariant
            i <= analyses@.len(),
            t == testing_sum(analyses@.take(i as int)),
            d == docs_sum(analyses@.take(i as int)),
            q == quality_sum(analyses@.take(i as int)),
            t <= u32::MAX as nat * i,
            d <= 255 * i,
            q <= 255 * i,
        decreases analyses.len() - i,
    {
        proof {
            assert(analyses@.take(i + 1).drop_last() =~= analyses@.take(i as int));
        }
        let qa = &analyses[i].quality_assessment;
        t = t + qa.testing_coverage as u128;
        d = d + qa.documentation_quality as u128;
        q = q + qa.code_quality as u128;
        i = i + 1;
    }
    assert(analyses@.take(i as int) =~= analyses@);
    (t, d, q)
}


/// The lowercase domain tags of all results, in order.
pub open spec fn all_signals(a: Seq<LLMAnalysisResult>) -> Seq<Seq<char>>
    decreases a.len(),
{
    if a.len() == 0 {
        Seq::empty()
    } else {
        all_signals(a.drop_last()) + texts(a.last().domain_signals@).map_values(|t: Seq<char>| lower_of(t))
    }
}

/// `e` with one more sighting of `tag`: its count raised, held to what a
/// `u32` can count, or a new entry at the end.
pub open spec fn count_in(e: Seq<(Seq<char>, nat)>, tag: Seq<char>) -> Seq<(Seq<char>, nat)> {
    if exists|i: int| 0 <= i < e.len() && (#[trigger] e[i]).0 == tag {
        let i = choose|i: int| 0 <= i < e.len() && (#[trigger] e[i]).0 == tag;
        e.update(i, (tag, if e[i].1 >= u32::MAX { u32::MAX as nat } else { e[i].1 + 1 }))
    } else {
        e.push((tag, 1nat))
    }
}

/// Each distinct tag with its count, in order of first sighting.
pub open spec fn tag_counts(tags: Seq<Seq<char>>) -> Seq<(Seq<char>, nat)> {
    tags.fold_left(Seq::empty(), |e: Seq<(Seq<char>, nat)>, t: Seq<char>| count_in(e, t))
}

/// `x` placed after every entry whose count is at least its own.
pub open spec fn insert_by_count(s: Seq<(Seq<char>, nat)>, x: (Seq<char>, nat)) -> Seq<(Seq<char>, nat)>
    decreases s.len(),
{
    if s.len() == 0 {
        seq![x]
    } else if s[0].1 < x.1 {
        seq![x] + s
    } else {
        seq![s[0]] + insert_by_count(s.drop_first(), x)
    }
}

/// `s` stably sorted by count, highest first.
pub open spec fn sort_by_count(s: Seq<(Seq<char>, nat)>) -> Seq<(Seq<char>, nat)> {
    s.fold_left(Seq::empty(), |acc: Seq<(Seq<char>, nat)>, x: (Seq<char>, nat)| insert_by_count(acc, x))
}

/// The domain a lowercase tag names, if any.
pub open spec fn domain_of(t: Seq<char>) -> Option<SkillDomain> {
    if t == "frontend"@ {
        Some(SkillDomain::Frontend)
    } else if t == "backend"@ {
        Some(SkillDomain::Backend)
    } else if t == "fullstack"@ || t == "full-stack"@ {
        Some(SkillDomain::FullStack)
    } else if t == "mobile"@ {
        Some(SkillDomain::Mobile)
    } else if t == "devops"@ {
        Some(SkillDomain::DevOps)
    } else if t == "ml"@ || t == "machine learning"@ {
        Some(SkillDomain::MachineLearning)
    } else if t == "data"@ || t == "data science"@ {
        Some(SkillDomain::DataScience)
    } else if t == "security"@ {
        Some(SkillDomain::Security)
    } else if t == "database"@ || t == "databases"@ {
        Some(SkillDomain::Database)
    } else if t == "cloud"@ {
        Some(SkillDomain::Cloud)
    } else if t == "embedded"@ {
        Some(SkillDomain::Embedded)
    } else if t == "systems"@ {
        Some(SkillDomain::SystemsProgramming)
    } else {
        None
    }
}

/// The domains that the entries name, in order, skipping tags outside the vocabulary.
pub open spec fn known_domains(s: Seq<(Seq<char>, nat)>) -> Seq<SkillDomain>
    decreases s.len(),
{
    if s.len() == 0 {
        Seq::empty()
    } else {
        known_domains(s.drop_last()) + match domain_of(s.last().0) {
            Some(d) => seq![d],
            None => Seq::empty(),
        }
    }
}

/// The primary domains: the three most frequent tags, as domains.
pub open spec fn primary_domains(a: Seq<LLMAnalysisResult>) -> Seq<SkillDomain> {
    let sorted = sort_by_count(tag_counts(all_signals(a)));
    known_domains(if sorted.len() > 3 { sorted.take(3) } else { sorted })
}

pub open spec fn count_views(v: Seq<(String, u32)>) -> Seq<(Seq<char>, nat)> {
    v.map_values(|e: (String, u32)| (e.0@, e.1 as nat))
}

pub open spec fn unique_tags(e: Seq<(Seq<char>, nat)>) -> bool {
    forall|a: int, b: int| 0 <= a < b < e.len() ==> (#[trigger] e[a]).0 != (#[trigger] e[b]).0
}

/// The lowercase domain tags of all results, in order.
pub fn lowercase_signals(analyses: &Vec<LLMAnalysisResult>) -> (r: Vec<String>)
    ensures
        texts(r@) == all_signals(analyses@),
{
    let mut out: Vec<String> = Vec::new();
    let mut i: usize = 0;
    while i < analyses.len()
        invariant
            i <= analyses@.len(),
            texts(out@) == all_signals(analyses@.take(i as int)),
        decreases analyses.len() - i,
    {
        let sigs = &analyses[i].domain_signals;
        let ghost base = texts(out@);
        let ghost add = texts(sigs@).map_values(|t: Seq<char>| lower_of(t));
        proof {
            assert(analyses@.take(i + 1).drop_last() =~= analyses@.take(i as int));
            assert(base + add.take(0) =~= base);
        }
        let mut j: usize = 0;
        while j < sigs.len()
            invariant
                j <= sigs@.len(),
                add == texts(sigs@).map_values(|t: Seq<char>| lower_of(t)),
                texts(out@) == base + add.take(j as int),
            decreases sigs.len() - j,
        {
            let f = lowercase(sigs[j].as_str());
            let ghost prev = out@;
            out.push(f);
            assert(texts(out@) =~= texts(prev).push(f@));
            assert(base + add.take(j + 1) =~= (base + add.take(j as int)).push(add[j as int]));
            j = j + 1;
        }
        assert(add.take(j as int) =~= add);
        i = i + 1;
    }
    assert(analyses@.take(i as int) =~= analyses@);
    out
}

/// Each distinct tag of `tags` with its count, in order of first sighting.
pub fn count_tags(tags: &Vec<String>) -> (r: Vec<(String, u32)>)
    ensures
        count_views(r@) == tag_counts(texts(tags@)),
{
    let ghost ts = texts(tags@);
    let mut out: Vec<(String, u32)> = Vec::new();
    let mut i: usize = 0;
    while i < tags.len()
        invariant
            ts == texts(tags@),
            i <= tags@.len(),
            count_views(out@) == tag_counts(ts.take(i as int)),
            unique_tags(count_views(out@)),
        decreases tags.len() - i,
    {
        let t = &tags[i];
        let ghost e = count_views(out@);
        proof {
            assert(ts.take(i + 1).drop_last() =~= ts.take(i as int));
            assert(ts.take(i + 1).last() == t@);
        }
        let mut found: Option<usize> = None;
        let mut j: usize = 0;
        while j < out.len()
            invariant
                j <= out@.len(),
                e == count_views(out@),
                found matches Some(x) ==> x < out@.len() && out@[x as int].0@ == t@,
                found is None ==> forall|y: int| 0 <= y < j ==> (#[trigger] out@[y]).0@ != t@,
            decreases out.len() - j,
        {
            if found.is_none() && crate::text::same_text(out[j].0.as_str(), t.as_str()) {
                found = Some(j);
            }
            j = j + 1;
        }
        match found {
            Some(x) => {
                let (k, c) = out.remove(x);
                let c2: u32 = if c == u32::MAX { u32::MAX } else { c + 1 };
                out.insert(x, (k, c2));
                proof {
                    assert(e[x as int].0 == t@);
                    let y = choose|y: int| 0 <= y < e.len() && (#[trigger] e[y]).0 == t@;
                    if y != x as int {
                        if y < x { assert(e[y].0 != e[x as int].0); } else { assert(e[x as int].0 != e[y].0); }
                    }
                    assert(count_views(out@) =~= e.update(x as int, (t@, c2 as nat)));
                }
            },
            None => {
                out.push((t.clone(), 1));
                proof {
                    assert forall|y: int| 0 <= y < e.len() implies (#[trigger] e[y]).0 != t@ by {
                        assert(e[y].0 == out@[y].0@);
                    }
                    assert(count_views(out@) =~= e.push((t@, 1nat)));
                }
            },
        }
        i = i + 1;
    }
    assert(ts.take(i as int) =~= ts);
    out
}

proof fn lemma_insert_by_count(s: Seq<(Seq<char>, nat)>, x: (Seq<char>, nat), p: int)
    requires
        0 <= p <= s.len(),
        forall|k: int| 0 <= k < p ==> (#[trigger] s[k]).1 >= x.1,
        p < s.len() ==> s[p].1 < x.1,
    ensures
        insert_by_count(s, x) == s.insert(p, x),
    decreases s.len(),
{
    if s.len() == 0 {
        assert(s.insert(p, x) =~= seq![x]);
    } else if p == 0 {
        assert(s.insert(0, x) =~= seq![x] + s);
    } else {
        assert forall|k: int| 0 <= k < p - 1 implies (#[trigger] s.drop_first()[k]).1 >= x.1 by {
            assert(s.drop_first()[k] == s[k + 1]);
        }
        lemma_insert_by_count(s.drop_first(), x, p - 1);
        assert(s.insert(p, x) =~= seq![s[0]] + s.drop_first().insert(p - 1, x));
    }
}

/// `entries` stably sorted by count, highest first.
pub fn sort_counts(entries: Vec<(String, u32)>) -> (r: Vec<(String, u32)>)
    ensures
        count_views(r@) == sort_by_count(count_views(entries@)),
{
    let ghost cs = count_views(entries@);
    let ghost orig = entries@;
    let mut rest = entries;
    assert(orig.len() == rest.len());
    let mut out: Vec<(String, u32)> = Vec::new();
    let mut i: usize = 0;
    assert(orig.subrange(0, orig.len() as int) =~= orig);
    while rest.len() > 0
        invariant
            cs == count_views(orig),
            i <= orig.len(),
            orig.len() <= usize::MAX,
            rest@ == orig.subrange(i as int, orig.len() as int),
            count_views(out@) == sort_by_count(cs.take(i as int)),
        decreases rest.len(),
    {
        let x = rest.remove(0);
        proof {
            assert(rest@ =~= orig.subrange(i + 1, orig.len() as int));
            assert(cs.take(i + 1).drop_last() =~= cs.take(i as int));
            assert(cs.take(i + 1).last() == (x.0@, x.1 as nat));
        }
        let mut p: usize = 0;
        while p < out.len() && out[p].1 >= x.1
            invariant
                p <= out@.len(),
                forall|k: int| 0 <= k < p ==> (#[trigger] out@[k]).1 >= x.1,
            decreases out.len() - p,
        {
            p = p + 1;
        }
        let ghost before = count_views(out@);
        proof {
            assert forall|k: int| 0 <= k < p implies (#[trigger] before[k]).1 >= x.1 as nat by {
                assert(before[k] == (out@[k].0@, out@[k].1 as nat));
            }
            if p < out@.len() {
                assert(before[p as int] == (out@[p as int].0@, out@[p as int].1 as nat));
            }
            lemma_insert_by_count(before, (x.0@, x.1 as nat), p as int);
        }
        let ghost xv = (x.0@, x.1 as nat);
        out.insert(p, x);
        assert(count_views(out@) =~= before.insert(p as int, xv));
        i = i + 1;
    }
    assert(cs.take(i as int) =~= cs);
    out
}

/// The domain a lowercase tag names, if any.
pub fn domain_for(t: &str) -> (r: Option<SkillDomain>)
    ensures
        r == domain_of(t@),
{
    let v = chars_of(t);
    if is_text(&v, "frontend") {
        Some(SkillDomain::Frontend)
    } else if is_text(&v, "backend") {
        Some(SkillDomain::Backend)
    } else if is_text(&v, "fullstack") || is_text(&v, "full-stack") {
        Some(SkillDomain::FullStack)
    } else if is_text(&v, "mobile") {
        Some(SkillDomain::Mobile)
    } else if is_text(&v, "devops") {
        Some(SkillDomain::DevOps)
    } else if is_text(&v, "ml") || is_text(&v, "machine learning") {
        Some(SkillDomain::MachineLearning)
    } else if is_text(&v, "data") || is_text(&v, "data science") {
        Some(SkillDomain::DataScience)
    } else if is_text(&v, "security") {
        Some(SkillDomain::Security)
    } else if is_text(&v, "database") || is_text(&v, "databases") {
        Some(SkillDomain::Database)
    } else if is_text(&v, "cloud") {
        Some(SkillDomain::Cloud)
    } else if is_text(&v, "embedded") {
        Some(SkillDomain::Embedded)
    } else if is_text(&v, "systems") {
        Some(SkillDomain::SystemsProgramming)
    } else {
        None
    }
}

impl RatingEngine {
    /// The primary domains of a profile: of the three most reported tags,
    /// those that name a known domain.
    pub fn extract_primary_domains(&self, analyses: &Vec<LLMAnalysisResult>) -> (r: Vec<SkillDomain>)
        ensures
            r@ == primary_domains(analyses@),
    {
        let tags = lowercase_signals(analyses);
        let counts = count_tags(&tags);
        let sorted = sort_counts(counts);
        let ghost sv = count_views(sorted@);
        let top: usize = if sorted.len() > 3 { 3 } else { sorted.len() };
        let ghost topv = if sv.len() > 3 { sv.take(3) } else { sv };
        assert(topv.len() == top);
        let mut out: Vec<SkillDomain> = Vec::new();
        let mut i: usize = 0;
        while i < top
            invariant
                i <= top <= sorted@.len(),
                sv == count_views(sorted@),
                topv.len() == top,
                forall|k: int| 0 <= k < top ==> #[trigger] topv[k] == sv[k],
                out@ == known_domains(topv.take(i as int)),
            decreases top - i,
        {
            proof {
                assert(topv.take(i + 1).drop_last() =~= topv.take(i as int));
                assert(topv.take(i + 1).last() == sv[i as int]);
            }
            match domain_for(sorted[i].0.as_str()) {
                Some(d) => {
                    out.push(d);
                    assert(out@ =~= known_domains(topv.take(i + 1)));
                },
                None => {
                    assert(out@ =~= known_domains(topv.take(i + 1)));
                },
            }
            i = i + 1;
        }
        assert(topv.take(i as int) =~= topv);
        out
    }
}


impl RatingEngine {
    /// The profile summary of rated skills and generation results.
    pub fn generate_summary(&self, skill_ratings: &Vec<SkillRating>, analyses: &Vec<LLMAnalysisResult>) -> (r: ProfileSummary)
        ensures
            texts(r.primary_languages@) == first_five(language_names(skill_ratings@)),
            r.primary_domains@ == primary_domains(analyses@),
            finding_views(r.strengths@) == first_five(by_score(strength_candidates(skill_ratings@, analyses@), true)),
            finding_views(r.weaknesses@) == first_five(by_score(weakness_candidates(skill_ratings@, analyses@), false)),
            r.experience_level == experience_of(skill_ratings@),
            style_of(r.coding_style, analyses@),
    {
        ProfileSummary {
            primary_languages: self.extract_primary_languages(skill_ratings),
            primary_domains: self.extract_primary_domains(analyses),
            strengths: self.detect_strengths(skill_ratings, analyses),
            weaknesses: self.detect_weaknesses(skill_ratings, analyses),
            experience_level: self.assess_experience_level(skill_ratings),
            coding_style: self.assess_coding_style(analyses),
        }
    }
}

} // verus!
