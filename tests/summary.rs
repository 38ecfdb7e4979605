use gitanalyzer::extractor::SkillExtractor;
use gitanalyzer::models::{
    CodingStyle, CommitForAnalysis, CommitStats, ComplexityAssessment, DetectedPattern, ExperienceLevel, ExtractedSkill,
    LLMAnalysisResult, QualityAssessment, Skill, SkillCategory, SkillDomain, SkillEvidence, SkillRating, SkillTrend,
};
use gitanalyzer::rating::RatingEngine;

const DAY: i64 = 86400;

fn rating(name: &str, category: SkillCategory, score: u8, trend: SkillTrend, first: i64, last: i64) -> SkillRating {
    SkillRating {
        skill: Skill { id: name.to_lowercase(), name: name.to_string(), category, subcategory: None, aliases: Vec::new() },
        proficiency_score: score,
        percentile_rank: None,
        confidence: 500,
        evidence: SkillEvidence {
            commit_count: 12,
            total_lines_changed: 100,
            first_seen: first,
            last_seen: last,
            repositories: vec!["o/r".to_string()],
        },
        trend,
    }
}

fn pattern(name: &str, impact: i32) -> DetectedPattern {
    DetectedPattern {
        pattern_type: "design_pattern".to_string(),
        name: name.to_string(),
        description: String::new(),
        quality_impact: impact,
    }
}

fn result(quality: u8, testing: u32, docs: u8, patterns: Vec<DetectedPattern>, domains: &[&str], skills: Vec<ExtractedSkill>) -> LLMAnalysisResult {
    LLMAnalysisResult {
        skills,
        patterns,
        complexity_assessment: ComplexityAssessment {
            overall_score: 6,
            algorithmic_complexity: 5,
            architectural_complexity: 5,
            reasoning: String::new(),
        },
        quality_assessment: QualityAssessment {
            code_quality: quality,
            testing_coverage: testing,
            documentation_quality: docs,
            error_handling: 5,
            observations: Vec::new(),
        },
        domain_signals: domains.iter().map(|d| d.to_string()).collect(),
        notable_aspects: Vec::new(),
    }
}

fn mention(name: &str, category: &str, level: &str, confidence: u32) -> ExtractedSkill {
    ExtractedSkill {
        name: name.to_string(),
        category: category.to_string(),
        proficiency_level: level.to_string(),
        confidence,
        evidence: vec!["seen".to_string()],
    }
}

fn commit(sha: &str, repo: &str, at: i64, adds: u32, dels: u32) -> CommitForAnalysis {
    CommitForAnalysis {
        sha: sha.to_string(),
        repository: repo.to_string(),
        message: "m".to_string(),
        stats: CommitStats { additions: adds, deletions: dels, total: adds + dels },
        files_changed: Vec::new(),
        committed_at: at,
    }
}

#[test]
fn strengths_ordered_and_described() {
    let engine = RatingEngine::new();
    let ratings = vec![
        rating("Rust", SkillCategory::Language, 88, SkillTrend::Stable, 0, 0),
        rating("Go", SkillCategory::Language, 60, SkillTrend::Stable, 0, 0),
    ];
    let analyses = vec![result(8, 500, 6, vec![pattern("Builder", 500)], &[], vec![]), result(7, 500, 6, vec![], &[], vec![])];
    let s = engine.detect_strengths(&ratings, &analyses);
    let areas: Vec<&str> = s.iter().map(|x| x.area.as_str()).collect();
    assert_eq!(areas, vec!["Rust", "Design Patterns", "Code Quality"]);
    assert_eq!(s[0].description, "Strong Language proficiency with 12 commits");
    assert_eq!(s[1].evidence, vec!["Builder".to_string()]);
    assert_eq!(s[2].description, "Consistently high code quality (avg: 7.5/10)");
    assert_eq!(s[2].score, 75);
}

#[test]
fn weaknesses_ordered_and_described() {
    let engine = RatingEngine::new();
    let last = 1_705_276_800; // 2024-01-15
    let ratings = vec![rating("Perl", SkillCategory::Language, 45, SkillTrend::Declining, 0, last)];
    let analyses = vec![result(5, 100, 3, vec![pattern("God object", -800)], &[], vec![])];
    let w = engine.detect_weaknesses(&ratings, &analyses);
    let areas: Vec<&str> = w.iter().map(|x| x.area.as_str()).collect();
    assert_eq!(areas, vec!["Testing", "Documentation", "Code Patterns", "Perl"]);
    assert_eq!(w[0].description, "Low test coverage across commits (10%)");
    assert_eq!(w[0].score, 10);
    assert_eq!(w[1].description, "Limited documentation quality (avg: 3.0/10)");
    assert_eq!(w[1].score, 30);
    assert_eq!(w[3].description, "Perl usage declining over time");
    assert_eq!(w[3].evidence, vec!["Last used: 2024-01-15".to_string()]);
}

#[test]
fn no_results_still_flag_testing_and_documentation() {
    let engine = RatingEngine::new();
    let w = engine.detect_weaknesses(&Vec::new(), &Vec::new());
    let areas: Vec<&str> = w.iter().map(|x| x.area.as_str()).collect();
    assert_eq!(areas, vec!["Testing", "Documentation"]);
    assert!(engine.detect_strengths(&Vec::new(), &Vec::new()).is_empty());
}

#[test]
fn primary_languages_and_domains() {
    let engine = RatingEngine::new();
    let ratings = vec![
        rating("Rust", SkillCategory::Language, 80, SkillTrend::Stable, 0, 0),
        rating("Docker", SkillCategory::Tool, 80, SkillTrend::Stable, 0, 0),
        rating("Python", SkillCategory::Language, 39, SkillTrend::Stable, 0, 0),
        rating("Go", SkillCategory::Language, 40, SkillTrend::Stable, 0, 0),
    ];
    assert_eq!(engine.extract_primary_languages(&ratings), vec!["Rust".to_string(), "Go".to_string()]);
    let analyses = vec![
        result(5, 0, 5, vec![], &["Backend", "web3", "ml"], vec![]),
        result(5, 0, 5, vec![], &["backend", "WEB3", "frontend"], vec![]),
        result(5, 0, 5, vec![], &["web3", "backend"], vec![]),
    ];
    assert_eq!(engine.extract_primary_domains(&analyses), vec![SkillDomain::Backend, SkillDomain::MachineLearning]);
}

#[test]
fn experience_tiers() {
    let engine = RatingEngine::new();
    let year = 365 * DAY;
    let senior: Vec<SkillRating> = (0..3).map(|i| rating(&format!("s{}", i), SkillCategory::Language, 75, SkillTrend::Stable, 0, 3 * year)).collect();
    assert_eq!(engine.assess_experience_level(&senior), ExperienceLevel::Senior);
    let principal: Vec<SkillRating> = (0..5).map(|i| rating(&format!("p{}", i), SkillCategory::Language, 90, SkillTrend::Stable, 0, 6 * year)).collect();
    assert_eq!(engine.assess_experience_level(&principal), ExperienceLevel::Principal);
    assert_eq!(engine.assess_experience_level(&Vec::new()), ExperienceLevel::Junior);
}

#[test]
fn coding_style_means() {
    let engine = RatingEngine::new();
    let analyses = vec![result(8, 400, 6, vec![pattern("Extract-Refactoring", 100)], &[], vec![]), result(6, 200, 4, vec![], &[], vec![])];
    let s: CodingStyle = engine.assess_coding_style(&analyses);
    assert!(s.prefers_small_commits);
    assert_eq!(s.writes_tests, 300);
    assert_eq!(s.documents_code, 500);
    assert_eq!(s.follows_conventions, 700);
    assert!(s.refactors_regularly);
    let none = engine.assess_coding_style(&Vec::new());
    assert!(!none.refactors_regularly);
    assert_eq!(none.writes_tests, 0);
}

#[test]
fn summary_combines_parts() {
    let engine = RatingEngine::new();
    let ratings = vec![rating("Rust", SkillCategory::Language, 80, SkillTrend::Stable, 0, 0)];
    let analyses = vec![result(9, 800, 8, vec![], &["devops"], vec![])];
    let s = engine.generate_summary(&ratings, &analyses);
    assert_eq!(s.primary_languages, vec!["Rust".to_string()]);
    assert_eq!(s.primary_domains, vec![SkillDomain::DevOps]);
    assert_eq!(s.strengths.len(), 2);
    assert!(s.weaknesses.is_empty());
    assert_eq!(s.experience_level, ExperienceLevel::Junior);
}

#[test]
fn aggregation_buckets_by_normalised_name() {
    let extractor = SkillExtractor::new();
    let pairs = vec![
        (result(7, 0, 5, vec![], &[], vec![mention("Rust", "language", "expert", 900), mention("Docker", "tool", "intermediate", 1500)]), commit("a1", "o/r", 100, 10, 5)),
        (result(4, 0, 5, vec![], &[], vec![mention("rs", "language", "advanced", 600)]), commit("b2", "o/s", 200, 1, 1)),
    ];
    let buckets = extractor.aggregate_skills(&pairs);
    assert_eq!(buckets.len(), 2);
    assert_eq!(buckets[0].0, "rust");
    let rust = &buckets[0].1;
    assert_eq!(rust.skill.id, "rust");
    assert_eq!(rust.skill.category, SkillCategory::Language);
    assert_eq!(rust.occurrences.len(), 2);
    assert_eq!(rust.occurrences[1].commit_sha, "b2");
    assert_eq!(rust.occurrences[1].proficiency_signal, "advanced");
    assert_eq!(rust.total_lines, 17);
    assert_eq!(rust.complexity_scores, vec![6, 6]);
    assert_eq!(rust.quality_scores, vec![7, 4]);
    assert_eq!(buckets[1].0, "docker");
    assert_eq!(buckets[1].1.occurrences[0].confidence, 1000);
}

#[test]
fn domain_signal_counts_and_quality_means() {
    let extractor = SkillExtractor::new();
    let analyses = vec![
        result(8, 300, 6, vec![], &["Backend", "ml"], vec![]),
        result(6, 100, 4, vec![], &["backend"], vec![]),
    ];
    assert_eq!(extractor.extract_domain_signals(&analyses), vec![("backend".to_string(), 2), ("ml".to_string(), 1)]);
    assert_eq!(extractor.compute_average_quality(&analyses), (200, 5000, 7000));
    assert_eq!(extractor.compute_average_quality(&Vec::new()), (0, 0, 0));
}
