use gitanalyzer::models::{AggregatedSkill, Skill, SkillCategory, SkillOccurrence, SkillTrend};
use gitanalyzer::rating::{frequency_score, recency_score, RatingEngine};

const DAY: i64 = 86400;
const NOW: i64 = 1_700_000_000;

fn skill(name: &str, category: SkillCategory) -> Skill {
    Skill { id: name.to_lowercase(), name: name.to_string(), category, subcategory: None, aliases: Vec::new() }
}

fn occurrence(days_ago: i64, label: &str, confidence: u32, repo: &str) -> SkillOccurrence {
    SkillOccurrence {
        commit_sha: format!("sha{}", days_ago),
        repository: repo.to_string(),
        timestamp: NOW - days_ago * DAY,
        evidence: vec!["uses traits".to_string()],
        proficiency_signal: label.to_string(),
        confidence,
        lines_changed: 10,
    }
}

fn aggregate(occ: Vec<SkillOccurrence>, complexity: Vec<u8>, quality: Vec<u8>) -> AggregatedSkill {
    let mut a = AggregatedSkill::new(skill("Rust", SkillCategory::Language));
    a.total_lines = occ.iter().map(|o| o.lines_changed).sum();
    a.occurrences = occ;
    a.complexity_scores = complexity;
    a.quality_scores = quality;
    a
}

#[test]
fn single_recent_expert_occurrence() {
    let engine = RatingEngine::new();
    let agg = aggregate(vec![occurrence(10, "expert", 900, "o/r")], Vec::new(), Vec::new());
    assert_eq!(engine.calculate_proficiency_from_signals(&agg.occurrences), 9500);
    assert_eq!(recency_score(&agg.occurrences, NOW), 9726);
    assert_eq!(frequency_score(1), 2000);
    assert_eq!(engine.calculate_consistency(&agg.occurrences), 5000);
    let r = engine.calculate_single_rating(&agg, NOW);
    // 0.15*20 + 0.15*97.26 + 0.2*50 + 0.2*50 + 0.1*50 + 0.2*95 = 61.59
    assert_eq!(r.proficiency_score, 62);
    assert_eq!(r.confidence, 50);
    assert_eq!(r.trend, SkillTrend::New);
    assert_eq!(r.evidence.commit_count, 1);
    assert_eq!(r.evidence.first_seen, NOW - 10 * DAY);
    assert_eq!(r.evidence.last_seen, NOW - 10 * DAY);
    assert_eq!(r.evidence.repositories, vec!["o/r".to_string()]);
}

#[test]
fn frequency_follows_logarithm() {
    assert_eq!(frequency_score(2), 3386);
    assert_eq!(frequency_score(20), 7991);
    assert_eq!(frequency_score(54), 9977);
    assert_eq!(frequency_score(55), 10000);
    assert_eq!(frequency_score(1000), 10000);
}

#[test]
fn recency_bottoms_out_after_a_year() {
    let occ = vec![occurrence(400, "expert", 500, "o/r")];
    assert_eq!(recency_score(&occ, NOW), 0);
    let future = vec![occurrence(-3, "expert", 500, "o/r")];
    assert_eq!(recency_score(&future, NOW), 10000);
}

#[test]
fn consistency_from_mean_gap() {
    let engine = RatingEngine::new();
    let occ = vec![occurrence(0, "x", 1, "r"), occurrence(45, "x", 1, "r"), occurrence(90, "x", 1, "r")];
    assert_eq!(engine.calculate_consistency(&occ), 5000);
    let sparse = vec![occurrence(0, "x", 1, "r"), occurrence(200, "x", 1, "r")];
    assert_eq!(engine.calculate_consistency(&sparse), 0);
    assert_eq!(engine.calculate_consistency(&Vec::new()), 5000);
}

#[test]
fn proficiency_weights_by_confidence() {
    let engine = RatingEngine::new();
    let occ = vec![occurrence(1, "Beginner", 1000, "r"), occurrence(2, "ADVANCED", 1000, "r")];
    assert_eq!(engine.calculate_proficiency_from_signals(&occ), 5750);
    let weightless = vec![occurrence(1, "expert", 0, "r")];
    assert_eq!(engine.calculate_proficiency_from_signals(&weightless), 5000);
}

#[test]
fn trends() {
    let engine = RatingEngine::new();
    let two = vec![occurrence(300, "x", 1, "r"), occurrence(250, "x", 1, "r")];
    assert_eq!(engine.calculate_trend(&two, NOW), SkillTrend::New);
    let dormant = vec![occurrence(300, "x", 1, "r"), occurrence(250, "x", 1, "r"), occurrence(200, "x", 1, "r")];
    assert_eq!(engine.calculate_trend(&dormant, NOW), SkillTrend::Dormant);
    let improving = vec![occurrence(1, "x", 1, "r"), occurrence(2, "x", 1, "r"), occurrence(200, "x", 1, "r")];
    assert_eq!(engine.calculate_trend(&improving, NOW), SkillTrend::Improving);
    let declining = vec![occurrence(1, "x", 1, "r"), occurrence(200, "x", 1, "r"), occurrence(210, "x", 1, "r"), occurrence(220, "x", 1, "r")];
    assert_eq!(engine.calculate_trend(&declining, NOW), SkillTrend::Declining);
    let stable = vec![occurrence(1, "x", 1, "r"), occurrence(2, "x", 1, "r"), occurrence(200, "x", 1, "r"), occurrence(210, "x", 1, "r")];
    assert_eq!(engine.calculate_trend(&stable, NOW), SkillTrend::Stable);
    let ancient = vec![occurrence(500, "x", 1, "r"), occurrence(600, "x", 1, "r"), occurrence(700, "x", 1, "r")];
    assert_eq!(engine.calculate_trend(&ancient, NOW), SkillTrend::Stable);
}

#[test]
fn scores_and_confidence_stay_in_range() {
    let engine = RatingEngine::new();
    let many: Vec<SkillOccurrence> = (0..40).map(|d| occurrence(d, "expert", 1000, "r")).collect();
    let high = aggregate(many, vec![255; 40], vec![255; 40]);
    let r = engine.calculate_single_rating(&high, NOW);
    assert_eq!(r.proficiency_score, 100);
    assert_eq!(r.confidence, 1000);
    let empty = aggregate(Vec::new(), Vec::new(), Vec::new());
    let r = engine.calculate_single_rating(&empty, NOW);
    assert_eq!(r.proficiency_score, 1);
    assert_eq!(r.confidence, 0);
    assert_eq!(r.evidence.first_seen, NOW);
}

#[test]
fn ratings_sorted_by_score() {
    let engine = RatingEngine::new();
    let weak = aggregate(vec![occurrence(300, "beginner", 1000, "r")], vec![1], vec![1]);
    let strong = aggregate(vec![occurrence(1, "expert", 1000, "r")], vec![9], vec![9]);
    let ratings = engine.calculate_ratings(&vec![("weak".to_string(), weak), ("strong".to_string(), strong)], NOW);
    assert_eq!(ratings.len(), 2);
    assert!(ratings[0].proficiency_score > ratings[1].proficiency_score);
}

#[test]
fn repositories_are_distinct() {
    let agg = aggregate(vec![occurrence(1, "x", 1, "a"), occurrence(2, "x", 1, "b"), occurrence(3, "x", 1, "a")], Vec::new(), Vec::new());
    assert_eq!(agg.repositories(), vec!["a".to_string(), "b".to_string()]);
}
