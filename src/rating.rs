//! Turning aggregated skill evidence into scores, confidence and trends.
//!
//! Sub-scores are kept in hundredths of a point (0 ..= 10000 for the usual
//! inputs), rounded down; weights are percentages.
use vstd::prelude::*;
use vstd::relations::{sorted_by, total_ordering};
use crate::models::{text_opt, texts, lists_repositories, AggregatedSkill, SkillEvidence, SkillOccurrence, SkillRating, SkillTrend, SECONDS_PER_DAY};
use crate::text::{chars_of, lower_of, lowercase, is_text};

verus! {

broadcast use vstd::seq_lib::group_to_multiset_ensures;

/// Sub-score given when its evidence is missing: fifty points.
pub const NEUTRAL: u64 = 5000;

pub open spec fn time_leq() -> spec_fn(i64, i64) -> bool {
    |a: i64, b: i64| a <= b
}

pub proof fn lemma_time_order()
    ensures
        total_ordering(time_leq()),
{
    assert(vstd::relations::reflexive(time_leq()));
    assert(vstd::relations::antisymmetric(time_leq()));
    assert(vstd::relations::transitive(time_leq()));
    assert(vstd::relations::strongly_connected(time_leq()));
}

pub open spec fn times(occ: Seq<SkillOccurrence>) -> Seq<i64> {
    occ.map_values(|o: SkillOccurrence| o.timestamp)
}

/// `ln(n) + 1`, capped at five and scaled to hundredths of a point, for one to fifty-four.
pub open spec fn log_table() -> Seq<nat> {
    seq![2000nat, 3386nat, 4197nat, 4772nat, 5218nat, 5583nat, 5891nat, 6158nat, 6394nat, 6605nat, 6795nat, 6969nat, 7129nat, 7278nat, 7416nat, 7545nat, 7666nat, 7780nat, 7888nat, 7991nat, 8089nat, 8182nat, 8270nat, 8356nat, 8437nat, 8516nat, 8591nat, 8664nat, 8734nat, 8802nat, 8867nat, 8931nat, 8993nat, 9052nat, 9110nat, 9167nat, 9221nat, 9275nat, 9327nat, 9377nat, 9427nat, 9475nat, 9522nat, 9568nat, 9613nat, 9657nat, 9700nat, 9742nat, 9783nat, 9824nat, 9863nat, 9902nat, 9940nat, 9977nat]
}

/// Frequency sub-score of `n` occurrences: `min(ln(n) + 1, 5) / 5 * 100` points.
pub open spec fn frequency_points(n: nat) -> nat {
    if n == 0 {
        0
    } else if n > 54 {
        10000
    } else {
        log_table()[n - 1]
    }
}

/// The latest of some instants.
pub open spec fn latest(s: Seq<i64>) -> i64
    decreases s.len(),
{
    if s.len() == 0 {
        0
    } else if s.len() == 1 {
        s[0]
    } else {
        let m = latest(s.drop_last());
        if s.last() > m { s.last() } else { m }
    }
}

/// The earliest of some instants.
pub open spec fn earliest(s: Seq<i64>) -> i64
    decreases s.len(),
{
    if s.len() == 0 {
        0
    } else if s.len() == 1 {
        s[0]
    } else {
        let m = earliest(s.drop_last());
        if s.last() < m { s.last() } else { m }
    }
}

/// Whole days from `then` to `now`, none when `then` is not in the past.
pub open spec fn days_between(then: i64, now: i64) -> int {
    if now > then { (now - then) / (SECONDS_PER_DAY as int) } else { 0 }
}

/// Recency sub-score: `(1 - min(days / 365, 1)) * 100` points, from the latest occurrence.
pub open spec fn recency_points(ts: Seq<i64>, now: i64) -> nat {
    let days = if ts.len() == 0 { 0 } else { days_between(latest(ts), now) };
    let d = if days > 365 { 365 } else { days };
    ((365 - d) * 10000 / 365) as nat
}

pub open spec fn score_sum(s: Seq<u8>) -> nat
    decreases s.len(),
{
    if s.len() == 0 { 0 } else { score_sum(s.drop_last()) + s.last() as nat }
}

/// Mean of marks out of ten, scaled to hundredths of a point; neutral when there are none.
pub open spec fn mean_points(s: Seq<u8>) -> nat {
    if s.len() == 0 { NEUTRAL as nat } else { score_sum(s) * 1000 / s.len() }
}

/// Whole days between consecutive instants of `s`, summed.
pub open spec fn gap_days(s: Seq<i64>) -> int
    decreases s.len(),
{
    if s.len() < 2 {
        0
    } else {
        gap_days(s.drop_last()) + (s.last() - s[s.len() - 2]) / (SECONDS_PER_DAY as int)
    }
}

/// Consistency sub-score: `(1 - min(mean gap in days / 90, 1)) * 100` points over
/// the sorted instants; neutral with fewer than two.
pub open spec fn consistency_points(ts: Seq<i64>) -> nat {
    if ts.len() < 2 {
        NEUTRAL as nat
    } else {
        let g = gap_days(ts.sort_by(time_leq()));
        let m = 90 * (ts.len() - 1);
        if g >= m { 0 } else { ((m - g) * 10000 / m) as nat }
    }
}

/// Points of a self-reported proficiency label.
pub open spec fn level_points(label: Seq<char>) -> nat {
    let l = lower_of(label);
    if l == "expert"@ {
        95
    } else if l == "advanced"@ {
        80
    } else if l == "intermediate"@ {
        60
    } else if l == "beginner"@ {
        35
    } else {
        50
    }
}

pub open spec fn confidence_sum(occ: Seq<SkillOccurrence>) -> nat
    decreases occ.len(),
{
    if occ.len() == 0 { 0 } else { confidence_sum(occ.drop_last()) + occ.last().confidence as nat }
}

pub open spec fn weighted_levels(occ: Seq<SkillOccurrence>) -> nat
    decreases occ.len(),
{
    if occ.len() == 0 {
        0
    } else {
        weighted_levels(occ.drop_last()) + level_points(occ.last().proficiency_signal@) * (occ.last().confidence as nat)
    }
}

/// Proficiency sub-score: the confidence-weighted mean of the labels' points;
/// neutral when there is no weight.
pub open spec fn proficiency_points(occ: Seq<SkillOccurrence>) -> nat {
    if confidence_sum(occ) == 0 { NEUTRAL as nat } else { weighted_levels(occ) * 100 / confidence_sum(occ) }
}

/// Seconds in a hundred and eighty days and in a year.
pub open spec fn half_year() -> int {
    180 * SECONDS_PER_DAY
}

pub open spec fn year() -> int {
    365 * SECONDS_PER_DAY
}

pub open spec fn is_recent(t: i64, now: i64) -> bool {
    t > now - half_year()
}

pub open spec fn is_older(t: i64, now: i64) -> bool {
    t <= now - half_year() && t > now - year()
}

pub open spec fn recent_count(ts: Seq<i64>, now: i64) -> nat {
    ts.filter(|t: i64| is_recent(t, now)).len()
}

pub open spec fn older_count(ts: Seq<i64>, now: i64) -> nat {
    ts.filter(|t: i64| is_older(t, now)).len()
}

/// The trend of a skill: new with at most two occurrences; dormant when all
/// of the last year's use is older than half a year; else by the ratio of the
/// last half year's use to the half year before it.
pub open spec fn trend_of(ts: Seq<i64>, now: i64) -> SkillTrend {
    let r = recent_count(ts, now);
    let o = older_count(ts, now);
    if ts.len() <= 2 {
        SkillTrend::New
    } else if r == 0 && o > 0 {
        SkillTrend::Dormant
    } else if o > 0 {
        if 2 * r > 3 * o {
            SkillTrend::Improving
        } else if 2 * r < o {
            SkillTrend::Declining
        } else {
            SkillTrend::Stable
        }
    } else if r > 0 {
        SkillTrend::Improving
    } else {
        SkillTrend::Stable
    }
}

/// Every final score lies in 1 ..= 100 and every confidence in 0 ..= 1.
pub proof fn lemma_rating_bounds(w: RatingWeights, agg: AggregatedSkill, now: i64)
    ensures
        1 <= score_of(w, agg, now) <= 100,
        confidence_of(agg.occurrences@.len()) <= 1000,
{
}

/// A skill's trend is new exactly when it has at most two occurrences.
pub proof fn lemma_trend_new_iff_few(ts: Seq<i64>, now: i64)
    ensures
        (trend_of(ts, now) == SkillTrend::New) <==> ts.len() <= 2,
{
}

/// Consistency is neutral, fifty points, with fewer than two occurrences.
pub proof fn lemma_consistency_neutral_when_sparse(ts: Seq<i64>)
    requires
        ts.len() < 2,
    ensures
        consistency_points(ts) == 5000,
{
}

proof fn lemma_filter_step(s: Seq<i64>, i: int, pred: spec_fn(i64) -> bool)
    requires
        0 <= i < s.len(),
    ensures
        s.take(i + 1).filter(pred).len() == s.take(i).filter(pred).len() + (if pred(s[i]) { 1int } else { 0int }),
{
    assert(s.take(i + 1).drop_last() =~= s.take(i));
    assert(s.take(i + 1).last() == s[i]);
    reveal_with_fuel(Seq::filter, 1);
}

/// The occurrence instants of `occ`, in increasing order.
pub fn sorted_times(occ: &Vec<SkillOccurrence>) -> (r: Vec<i64>)
    ensures
        r@ == times(occ@).sort_by(time_leq()),
{
    let ghost ts = times(occ@);
    let mut out: Vec<i64> = Vec::new();
    let mut i: usize = 0;
    while i < occ.len()
        invariant
            ts == times(occ@),
            i <= occ@.len(),
            sorted_by(out@, time_leq()),
            out@.to_multiset() == ts.take(i as int).to_multiset(),
            out@.len() == i,
        decreases occ.len() - i,
    {
        let x = occ[i].timestamp;
        let mut p: usize = 0;
        while p < out.len() && out[p] <= x
            invariant
                p <= out@.len(),
                forall|k: int| 0 <= k < p ==> out@[k] <= x,
            decreases out.len() - p,
        {
            p = p + 1;
        }
        let ghost before = out@;
        out.insert(p, x);
        proof {
            assert(out@ == before.insert(p as int, x));
            vstd::seq_lib::to_multiset_insert(before, p as int, x);
            assert(ts.take(i + 1) =~= ts.take(i as int).push(x));
            assert forall|a: int, b: int| 0 <= a < b < out@.len() implies #[trigger] (time_leq())(out@[a], out@[b]) by {
                if b < p {
                    assert(out@[a] == before[a] && out@[b] == before[b]);
                } else if b == p {
                    assert(out@[a] == before[a]);
                } else if a < p {
                    assert(out@[b] == before[b - 1]);
                    assert(before[b - 1] > x || p == b - 1 || before[p as int] > x);
                    if a < p {
                        assert(out@[a] == before[a]);
                        assert(before[a] <= x);
                        assert(before[p as int] > x);
                        assert(time_leq()(before[p as int], before[b - 1]) || p as int == b - 1);
                    }
                } else if a == p {
                    assert(out@[b] == before[b - 1]);
                    assert(time_leq()(before[p as int], before[b - 1]) || p as int == b - 1);
                } else {
                    assert(out@[a] == before[a - 1] && out@[b] == before[b - 1]);
                }
            }
        }
        i = i + 1;
    }
    proof {
        assert(ts.take(i as int) =~= ts);
        lemma_time_order();
        ts.lemma_sort_by_ensures(time_leq());
        vstd::seq_lib::lemma_sorted_unique(out@, ts.sort_by(time_leq()), time_leq());
    }
    out
}


/// Frequency sub-score of `n` occurrences.
pub fn frequency_score(n: usize) -> (r: u64)
    ensures
        r == frequency_points(n as nat),
        r <= 10000,
{
    if n == 0 {
        return 0;
    }
    if n > 54 {
        return 10000;
    }
    let table: Vec<u64> = vec![2000, 3386, 4197, 4772, 5218, 5583, 5891, 6158, 6394, 6605, 6795, 6969, 7129, 7278, 7416, 7545, 7666, 7780, 7888, 7991, 8089, 8182, 8270, 8356, 8437, 8516, 8591, 8664, 8734, 8802, 8867, 8931, 8993, 9052, 9110, 9167, 9221, 9275, 9327, 9377, 9427, 9475, 9522, 9568, 9613, 9657, 9700, 9742, 9783, 9824, 9863, 9902, 9940, 9977];
    assert(table@.len() == 54);
    assert(forall|i: int| 0 <= i < 54 ==> table@[i] == log_table()[i]);
    table[n - 1]
}

/// The latest and earliest instants of `occ`, when it has any.
pub fn time_span(occ: &Vec<SkillOccurrence>) -> (r: Option<(i64, i64)>)
    ensures
        r is None <==> occ@.len() == 0,
        r matches Some(p) ==> p.0 == earliest(times(occ@)) && p.1 == latest(times(occ@)),
{
    if occ.len() == 0 {
        return None;
    }
    let ghost ts = times(occ@);
    let mut lo = occ[0].timestamp;
    let mut hi = occ[0].timestamp;
    let mut i: usize = 1;
    assert(ts.take(1).drop_last() =~= Seq::<i64>::empty());
    assert(ts.take(1) =~= seq![lo]);
    while i < occ.len()
        invariant
            ts == times(occ@),
            1 <= i <= occ@.len(),
            lo == earliest(ts.take(i as int)),
            hi == latest(ts.take(i as int)),
        decreases occ.len() - i,
    {
        let t = occ[i].timestamp;
        proof {
            assert(ts.take(i + 1).drop_last() =~= ts.take(i as int));
            assert(ts.take(i + 1).last() == t);
        }
        if t < lo {
            lo = t;
        }
        if t > hi {
            hi = t;
        }
        i = i + 1;
    }
    assert(ts.take(i as int) =~= ts);
    Some((lo, hi))
}

/// Whole days from `then` to `now`, none when `then` is not in the past.
pub fn days_since(then: i64, now: i64) -> (r: u64)
    ensures
        r == days_between(then, now),
{
    if now > then {
        ((now as i128 - then as i128) / (SECONDS_PER_DAY as i128)) as u64
    } else {
        0
    }
}

/// Recency sub-score of `occ` at instant `now`.
pub fn recency_score(occ: &Vec<SkillOccurrence>, now: i64) -> (r: u64)
    ensures
        r == recency_points(times(occ@), now),
        r <= 10000,
{
    let days: u64 = match time_span(occ) {
        Some((_, hi)) => days_since(hi, now),
        None => 0,
    };
    let d: u64 = if days > 365 { 365 } else { days };
    (365 - d) * 10000 / 365
}

/// Mean of marks out of ten, in hundredths of a point; neutral when there are none.
pub fn mean_score(s: &Vec<u8>) -> (r: u64)
    ensures
        r == mean_points(s@),
        r <= 255000,
{
    if s.len() == 0 {
        return NEUTRAL;
    }
    let mut sum: u128 = 0;
    let mut i: usize = 0;
    while i < s.len()
        invariant
            i <= s@.len(),
            sum == score_sum(s@.take(i as int)),
            sum <= 255 * i,
        decreases s.len() - i,
    {
        proof {
            assert(s@.take(i + 1).drop_last() =~= s@.take(i as int));
        }
        sum = sum + s[i] as u128;
        i = i + 1;
    }
    assert(s@.take(i as int) =~= s@);
    let n = s.len() as u128;
    proof {
        let a = sum as int * 1000;
        let b = n as int;
        assert(a <= 255000 * b) by (nonlinear_arith)
            requires sum as int <= 255 * b, a == sum as int * 1000;
        vstd::arithmetic::div_mod::lemma_div_is_ordered(a, 255000 * b, b);
        vstd::arithmetic::div_mod::lemma_div_by_multiple(255000, b);
    }
    (sum * 1000 / (s.len() as u128)) as u64
}

/// Points of a self-reported proficiency label.
pub fn level_score(label: &str) -> (r: u64)
    ensures
        r == level_points(label@),
{
    let lowered = lowercase(label);
    let l = chars_of(lowered.as_str());
    if is_text(&l, "expert") {
        95
    } else if is_text(&l, "advanced") {
        80
    } else if is_text(&l, "intermediate") {
        60
    } else if is_text(&l, "beginner") {
        35
    } else {
        50
    }
}

/// Every occurrence's confidence is a fraction of one, in thousandths.
pub open spec fn confidences_valid(occ: Seq<SkillOccurrence>) -> bool {
    forall|i: int| 0 <= i < occ.len() ==> (#[trigger] occ[i]).confidence <= 1000
}

/// Whole days between consecutive instants, summed.
fn gap_total(s: &Vec<i64>) -> (r: u128)
    requires
        sorted_by(s@, time_leq()),
    ensures
        r == gap_days(s@),
{
    if s.len() < 2 {
        return 0;
    }
    let mut sum: u128 = 0;
    let mut i: usize = 1;
    assert(s@.take(1).len() < 2);
    while i < s.len()
        invariant
            sorted_by(s@, time_leq()),
            1 <= i <= s@.len(),
            sum == gap_days(s@.take(i as int)),
            sum <= i * 0x1_0000_0000_0000_0000,
        decreases s.len() - i,
    {
        proof {
            assert(s@.take(i + 1).drop_last() =~= s@.take(i as int));
            assert(time_leq()(s@[i - 1], s@[i as int]));
        }
        let g: u128 = ((s[i] as i128 - s[i - 1] as i128) / (SECONDS_PER_DAY as i128)) as u128;
        sum = sum + g;
        i = i + 1;
    }
    assert(s@.take(i as int) =~= s@);
    sum
}

/// Counts of the occurrences of the last half year and of the half year before it.
pub fn usage_counts(occ: &Vec<SkillOccurrence>, now: i64) -> (r: (usize, usize))
    ensures
        r.0 == recent_count(times(occ@), now),
        r.1 == older_count(times(occ@), now),
{
    let ghost ts = times(occ@);
    let half: i128 = now as i128 - 180 * (SECONDS_PER_DAY as i128);
    let full: i128 = now as i128 - 365 * (SECONDS_PER_DAY as i128);
    let mut recent: usize = 0;
    let mut older: usize = 0;
    let mut i: usize = 0;
    while i < occ.len()
        invariant
            ts == times(occ@),
            i <= occ@.len(),
            half == now - half_year(),
            full == now - year(),
            recent == recent_count(ts.take(i as int), now),
            older == older_count(ts.take(i as int), now),
            recent <= i && older <= i,
        decreases occ.len() - i,
    {
        let t = occ[i].timestamp as i128;
        proof {
            lemma_filter_step(ts, i as int, |t: i64| is_recent(t, now));
            lemma_filter_step(ts, i as int, |t: i64| is_older(t, now));
        }
        if t > half {
            recent = recent + 1;
        }
        if t <= half && t > full {
            older = older + 1;
        }
        i = i + 1;
    }
    assert(ts.take(i as int) =~= ts);
    (recent, older)
}


/// Weights of the six sub-scores, in percent.
#[derive(Debug, Clone, Copy, PartialEq, Eq, Structural)]
pub struct RatingWeights {
    pub frequency_weight: u64,
    pub recency_weight: u64,
    pub complexity_weight: u64,
    pub quality_weight: u64,
    pub consistency_weight: u64,
    pub proficiency_weight: u64,
}

impl RatingWeights {
    /// Frequency 15, recency 15, complexity 20, quality 20, consistency 10, proficiency 20.
    pub open spec fn is_standard(&self) -> bool {
        self.frequency_weight == 15 && self.recency_weight == 15 && self.complexity_weight == 20
            && self.quality_weight == 20 && self.consistency_weight == 10 && self.proficiency_weight == 20
    }
}

impl Default for RatingWeights {
    fn default() -> (r: RatingWeights)
        ensures
            r.is_standard(),
    {
        RatingWeights {
            frequency_weight: 15,
            recency_weight: 15,
            complexity_weight: 20,
            quality_weight: 20,
            consistency_weight: 10,
            proficiency_weight: 20,
        }
    }
}

/// The weighted sum of the sub-scores, in ten-thousandths of a point.
pub open spec fn weighted_total(w: RatingWeights, agg: AggregatedSkill, now: i64) -> nat {
    let occ = agg.occurrences@;
    (w.frequency_weight as nat) * frequency_points(occ.len())
        + (w.recency_weight as nat) * recency_points(times(occ), now)
        + (w.complexity_weight as nat) * mean_points(agg.complexity_scores@)
        + (w.quality_weight as nat) * mean_points(agg.quality_scores@)
        + (w.consistency_weight as nat) * consistency_points(times(occ))
        + (w.proficiency_weight as nat) * proficiency_points(occ)
}

/// The final score: the weighted sum rounded to whole points and held to
/// 1 ..= 100. Without occurrences the logarithm of the frequency term is
/// unbounded below and the score is the lowest.
pub open spec fn score_of(w: RatingWeights, agg: AggregatedSkill, now: i64) -> u8 {
    if agg.occurrences@.len() == 0 {
        1
    } else {
        let x = (weighted_total(w, agg, now) + 5000) / 10000;
        if x < 1 { 1 } else if x > 100 { 100 } else { x as u8 }
    }
}

/// Confidence from the amount of evidence: one twentieth per occurrence, at most one.
pub open spec fn confidence_of(n: nat) -> u32 {
    if n * 50 >= 1000 { 1000 } else { (n * 50) as u32 }
}

/// `r` is the rating of `agg` at instant `now` under weights `w`.
pub open spec fn rates(r: SkillRating, agg: AggregatedSkill, w: RatingWeights, now: i64) -> bool {
    let occ = agg.occurrences@;
    &&& r.proficiency_score == score_of(w, agg, now)
    &&& r.confidence == confidence_of(occ.len())
    &&& r.trend == trend_of(times(occ), now)
    &&& r.percentile_rank is None
    &&& r.skill.id@ == agg.skill.id@
    &&& r.skill.name@ == agg.skill.name@
    &&& r.skill.category == agg.skill.category
    &&& text_opt(r.skill.subcategory) == text_opt(agg.skill.subcategory)
    &&& texts(r.skill.aliases@) == texts(agg.skill.aliases@)
    &&& r.evidence.commit_count == occ.len() as u32
    &&& r.evidence.total_lines_changed == agg.total_lines
    &&& r.evidence.first_seen == (if occ.len() == 0 { now } else { earliest(times(occ)) })
    &&& r.evidence.last_seen == (if occ.len() == 0 { now } else { latest(times(occ)) })
    &&& lists_repositories(r.evidence.repositories@, occ)
}

/// `u` holds, index for index, the ratings of `skills`.
pub open spec fn rates_all(u: Seq<SkillRating>, skills: Seq<(String, AggregatedSkill)>, w: RatingWeights, now: i64) -> bool {
    u.len() == skills.len() && forall|i: int| 0 <= i < u.len() ==> rates(#[trigger] u[i], skills[i].1, w, now)
}

/// Scores skills from their aggregated evidence.
pub struct RatingEngine {
    pub weights: RatingWeights,
}

impl RatingEngine {
    pub fn new() -> (r: RatingEngine)
        ensures
            r.weights.is_standard(),
    {
        RatingEngine { weights: RatingWeights::default() }
    }

    /// The rating of one aggregated skill at instant `now`.
    pub fn calculate_single_rating(&self, agg: &AggregatedSkill, now: i64) -> (r: SkillRating)
        requires
            confidences_valid(agg.occurrences@),
        ensures
            rates(r, *agg, self.weights, now),
            1 <= r.proficiency_score <= 100,
            r.confidence <= 1000,
    {
        let occ = &agg.occurrences;
        let n = occ.len();
        let w = self.weights;
        let score: u8 = if n == 0 {
            1
        } else {
            let f = frequency_score(n) as u128;
            let rc = recency_score(occ, now) as u128;
            let cx = mean_score(&agg.complexity_scores) as u128;
            let q = mean_score(&agg.quality_scores) as u128;
            let cs = self.calculate_consistency(occ) as u128;
            let p = self.calculate_proficiency_from_signals(occ) as u128;
            assert(w.frequency_weight as u128 * f <= 0xffff_ffff_ffff_ffff * 10000) by (nonlinear_arith)
                requires f <= 10000;
            assert(w.recency_weight as u128 * rc <= 0xffff_ffff_ffff_ffff * 10000) by (nonlinear_arith)
                requires rc <= 10000;
            assert(w.complexity_weight as u128 * cx <= 0xffff_ffff_ffff_ffff * 255000) by (nonlinear_arith)
                requires cx <= 255000;
            assert(w.quality_weight as u128 * q <= 0xffff_ffff_ffff_ffff * 255000) by (nonlinear_arith)
                requires q <= 255000;
            assert(w.consistency_weight as u128 * cs <= 0xffff_ffff_ffff_ffff * 10000) by (nonlinear_arith)
                requires cs <= 10000;
            assert(w.proficiency_weight as u128 * p <= 0xffff_ffff_ffff_ffff * 10000) by (nonlinear_arith)
                requires p <= 10000;
            let total: u128 = w.frequency_weight as u128 * f + w.recency_weight as u128 * rc
                + w.complexity_weight as u128 * cx + w.quality_weight as u128 * q
                + w.consistency_weight as u128 * cs + w.proficiency_weight as u128 * p;
            assert(total == weighted_total(w, *agg, now));
            let x = (total + 5000) / 10000;
            if x < 1 {
                1
            } else if x > 100 {
                100
            } else {
                x as u8
            }
        };
        let confidence: u32 = if n as u128 * 50 >= 1000 { 1000 } else { (n * 50) as u32 };
        let (first_seen, last_seen) = match time_span(occ) {
            Some((lo, hi)) => (lo, hi),
            None => (now, now),
        };
        let trend = self.calculate_trend(occ, now);
        let evidence = SkillEvidence {
            commit_count: n as u32,
            total_lines_changed: agg.total_lines,
            first_seen,
            last_seen,
            repositories: agg.repositories(),
        };
        SkillRating {
            skill: agg.skill.duplicate(),
            proficiency_score: score,
            percentile_rank: None,
            confidence,
            evidence,
            trend,
        }
    }

    /// Ratings of all `skills` at instant `now`, highest score first; equal
    /// scores keep the order of `skills`.
    pub fn calculate_ratings(&self, skills: &Vec<(String, AggregatedSkill)>, now: i64) -> (r: Vec<SkillRating>)
        requires
            forall|i: int| 0 <= i < skills@.len() ==> confidences_valid(#[trigger] skills@[i].1.occurrences@),
        ensures
            r@.len() == skills@.len(),
            forall|a: int, b: int| 0 <= a < b < r@.len() ==> (#[trigger] r@[a]).proficiency_score >= (#[trigger] r@[b]).proficiency_score,
            forall|k: int| 0 <= k < r@.len() ==> 1 <= (#[trigger] r@[k]).proficiency_score <= 100 && r@[k].confidence <= 1000,
            exists|u: Seq<SkillRating>| #[trigger] rates_all(u, skills@, self.weights, now) && r@.to_multiset() == u.to_multiset(),
    {
        let mut out: Vec<SkillRating> = Vec::new();
        let ghost mut u: Seq<SkillRating> = Seq::empty();
        let mut i: usize = 0;
        while i < skills.len()
            invariant
                i <= skills@.len(),
                forall|j: int| 0 <= j < skills@.len() ==> confidences_valid(#[trigger] skills@[j].1.occurrences@),
                u.len() == i,
                forall|j: int| 0 <= j < i ==> rates(#[trigger] u[j], skills@[j].1, self.weights, now),
                forall|j: int| 0 <= j < i ==> 1 <= (#[trigger] u[j]).proficiency_score <= 100 && u[j].confidence <= 1000,
                out@.to_multiset() == u.to_multiset(),
                out@.len() == i,
                forall|a: int, b: int| 0 <= a < b < out@.len() ==> (#[trigger] out@[a]).proficiency_score >= (#[trigger] out@[b]).proficiency_score,
                forall|k: int| 0 <= k < out@.len() ==> 1 <= (#[trigger] out@[k]).proficiency_score <= 100 && out@[k].confidence <= 1000,
            decreases skills.len() - i,
        {
            let rating = self.calculate_single_rating(&skills[i].1, now);
            let score = rating.proficiency_score;
            let mut p: usize = 0;
            while p < out.len() && out[p].proficiency_score >= score
                invariant
                    p <= out@.len(),
                    forall|k: int| 0 <= k < p ==> (#[trigger] out@[k]).proficiency_score >= score,
                decreases out.len() - p,
            {
                p = p + 1;
            }
            let ghost before = out@;
            proof {
                u = u.push(rating);
                vstd::seq_lib::to_multiset_insert(before, p as int, rating);
            }
            out.insert(p, rating);
            proof {
                assert(out@ == before.insert(p as int, rating));
                assert forall|a: int, b: int| 0 <= a < b < out@.len() implies (#[trigger] out@[a]).proficiency_score >= (#[trigger] out@[b]).proficiency_score by {
                    if b < p {
                        assert(out@[a] == before[a] && out@[b] == before[b]);
                    } else if b == p {
                        assert(out@[a] == before[a]);
                    } else if a < p {
                        assert(out@[a] == before[a] && out@[b] == before[b - 1]);
                        assert(before[p as int].proficiency_score < score);
                    } else if a == p {
                        assert(out@[b] == before[b - 1]);
                        assert(before[p as int].proficiency_score < score);
                    } else {
                        assert(out@[a] == before[a - 1] && out@[b] == before[b - 1]);
                    }
                }
                assert forall|k: int| 0 <= k < out@.len() implies 1 <= (#[trigger] out@[k]).proficiency_score <= 100 && out@[k].confidence <= 1000 by {
                    if k < p {
                        assert(out@[k] == before[k]);
                    } else if k > p {
                        assert(out@[k] == before[k - 1]);
                    }
                }
                assert forall|j: int| 0 <= j < i + 1 implies rates(#[trigger] u[j], skills@[j].1, self.weights, now) by {
                    if j < i {
                        assert(u[j] == u.drop_last()[j]);
                    }
                }
                assert forall|j: int| 0 <= j < i + 1 implies 1 <= (#[trigger] u[j]).proficiency_score <= 100 && u[j].confidence <= 1000 by {
                    if j < i {
                        assert(u[j] == u.drop_last()[j]);
                    }
                }
            }
            i = i + 1;
        }
        assert(rates_all(u, skills@, self.weights, now));
        out
    }

    /// How regularly a skill is used, from the mean gap between its sorted occurrences.
    pub fn calculate_consistency(&self, occurrences: &Vec<SkillOccurrence>) -> (r: u64)
        ensures
            r == consistency_points(times(occurrences@)),
            occurrences@.len() < 2 ==> r == 5000,
            r <= 10000,
    {
        if occurrences.len() < 2 {
            return NEUTRAL;
        }
        let sorted = sorted_times(occurrences);
        proof {
            lemma_time_order();
            times(occurrences@).lemma_sort_by_ensures(time_leq());
        }
        let g = gap_total(&sorted);
        let m: u128 = 90 * (occurrences.len() as u128 - 1);
        if g >= m {
            0
        } else {
            proof {
                vstd::arithmetic::div_mod::lemma_div_is_ordered(((m - g) * 10000) as int, (m * 10000) as int, m as int);
                vstd::arithmetic::div_mod::lemma_div_by_multiple(10000, m as int);
            }
            ((m - g) * 10000 / m) as u64
        }
    }

    /// The confidence-weighted mean of the self-reported proficiency labels.
    pub fn calculate_proficiency_from_signals(&self, occurrences: &Vec<SkillOccurrence>) -> (r: u64)
        requires
            confidences_valid(occurrences@),
        ensures
            r == proficiency_points(occurrences@),
            r <= 9500,
    {
        let ghost occ = occurrences@;
        let mut weight: u128 = 0;
        let mut total: u128 = 0;
        let mut i: usize = 0;
        while i < occurrences.len()
            invariant
                occ == occurrences@,
                confidences_valid(occ),
                i <= occ.len(),
                weight == confidence_sum(occ.take(i as int)),
                total == weighted_levels(occ.take(i as int)),
                weight <= 1000 * i,
                total <= 95 * weight,
            decreases occurrences.len() - i,
        {
            let o = &occurrences[i];
            let level = level_score(o.proficiency_signal.as_str());
            proof {
                assert(occ.take(i + 1).drop_last() =~= occ.take(i as int));
                assert(occ.take(i + 1).last() == *o);
                assert(o.confidence <= 1000);
                assert(level <= 95);
                assert(level as u128 * o.confidence as u128 <= 95 * o.confidence as u128) by (nonlinear_arith)
                    requires level <= 95;
            }
            weight = weight + o.confidence as u128;
            total = total + level as u128 * o.confidence as u128;
            i = i + 1;
        }
        assert(occ.take(i as int) =~= occ);
        if weight == 0 {
            return NEUTRAL;
        }
        proof {
            vstd::arithmetic::div_mod::lemma_div_is_ordered((total * 100) as int, (weight * 9500) as int, weight as int);
            vstd::arithmetic::div_mod::lemma_div_by_multiple(9500, weight as int);
        }
        (total * 100 / weight) as u64
    }

    /// Whether use of a skill is rising, steady, falling, new or dormant, at instant `now`.
    pub fn calculate_trend(&self, occurrences: &Vec<SkillOccurrence>, now: i64) -> (r: SkillTrend)
        ensures
            r == trend_of(times(occurrences@), now),
            (r == SkillTrend::New) <==> occurrences@.len() <= 2,
    {
        let (recent, older) = usage_counts(occurrences, now);
        if occurrences.len() <= 2 {
            return SkillTrend::New;
        }
        if recent == 0 && older > 0 {
            return SkillTrend::Dormant;
        }
        if older > 0 {
            if 2 * (recent as u128) > 3 * (older as u128) {
                SkillTrend::Improving
            } else if 2 * (recent as u128) < older as u128 {
                SkillTrend::Declining
            } else {
                SkillTrend::Stable
            }
        } else if recent > 0 {
            SkillTrend::Improving
        } else {
            SkillTrend::Stable
        }
    }
}

impl Default for RatingEngine {
    fn default() -> (r: RatingEngine)
        ensures
            r.weights.is_standard(),
    {
        RatingEngine::new()
    }
}

} // verus!
