use gitanalyzer::languages::detect_language;
use gitanalyzer::models::{FileStatus, SkillCategory};
use gitanalyzer::taxonomy::SkillTaxonomy;

#[test]
fn test_detect_language() {
    assert_eq!(detect_language("main.rs"), Some("Rust".to_string()));
    assert_eq!(detect_language("app.py"), Some("Python".to_string()));
    assert_eq!(detect_language("index.tsx"), Some("TypeScript".to_string()));
    assert_eq!(detect_language("Dockerfile"), Some("Dockerfile".to_string()));
    assert_eq!(detect_language("types.d.ts"), Some("TypeScript".to_string()));
}

#[test]
fn detect_language_special_names_and_unknowns() {
    assert_eq!(detect_language("GNUmakefile"), Some("Makefile".to_string()));
    assert_eq!(detect_language("CMakeLists.txt"), Some("CMake".to_string()));
    assert_eq!(detect_language("dockerfile.dev"), Some("Dockerfile".to_string()));
    assert_eq!(detect_language("LIB.RS"), Some("Rust".to_string()));
    assert_eq!(detect_language("notes.unknownext"), None);
    assert_eq!(detect_language("README"), None);
    assert_eq!(detect_language("infra/main.tf"), Some("Terraform".to_string()));
}

#[test]
fn normalization_resolves_aliases_and_case() {
    let t = SkillTaxonomy::new();
    assert_eq!(t.normalize_skill_name("Rust"), "rust");
    assert_eq!(t.normalize_skill_name("rs"), "rust");
    assert_eq!(t.normalize_skill_name("RUST"), "rust");
    assert_eq!(t.normalize_skill_name("K8s"), "kubernetes");
    assert_eq!(t.normalize_skill_name("Some New Thing"), "some new thing");
}

#[test]
fn normalization_is_idempotent_on_examples() {
    let t = SkillTaxonomy::new();
    for name in ["Rust", "rs", "JS", "Golang", "Ruby on Rails", "C++", "Unknown Skill", "TDD"] {
        let once = t.normalize_skill_name(name);
        let twice = t.normalize_skill_name(&once);
        assert_eq!(once, twice);
    }
}

#[test]
fn categorize_labels() {
    let t = SkillTaxonomy::new();
    assert_eq!(t.categorize("Language"), SkillCategory::Language);
    assert_eq!(t.categorize("FRAMEWORK"), SkillCategory::Framework);
    assert_eq!(t.categorize("library"), SkillCategory::Library);
    assert_eq!(t.categorize("practice"), SkillCategory::Practice);
    assert_eq!(t.categorize("something else"), SkillCategory::Concept);
}

#[test]
fn known_and_new_skills() {
    let t = SkillTaxonomy::new();
    let known = t.get_or_create_skill("ROR", SkillCategory::Concept);
    assert_eq!(known.id, "rails");
    assert_eq!(known.name, "rails");
    assert_eq!(known.category, SkillCategory::Framework);
    let spaced = t.get_or_create_skill("Spring Boot", SkillCategory::Concept);
    assert_eq!(spaced.id, "spring");
    let fresh = t.get_or_create_skill("Event Sourcing", SkillCategory::Concept);
    assert_eq!(fresh.id, "event_sourcing");
    assert_eq!(fresh.name, "Event Sourcing");
    assert_eq!(fresh.category, SkillCategory::Concept);
    assert!(fresh.aliases.is_empty());
    let ml = t.get_skill("Deep Learning").unwrap();
    assert_eq!(ml.id, "machine_learning");
    assert!(t.get_skill("nothing like it").is_none());
}

#[test]
fn file_status_labels() {
    assert_eq!(FileStatus::from("Added"), FileStatus::Added);
    assert_eq!(FileStatus::from("removed"), FileStatus::Deleted);
    assert_eq!(FileStatus::from("renamed"), FileStatus::Renamed);
    assert_eq!(FileStatus::from("changed"), FileStatus::Modified);
}

#[test]
fn case_folding_follows_unicode_lowercase() {
    let t = SkillTaxonomy::new();
    assert_eq!(t.normalize_skill_name("ÉCOLE"), "école");
    assert_eq!(t.normalize_skill_name("École"), t.normalize_skill_name("éCOLE"));
    assert_eq!(detect_language("MAIN.\u{212A}T"), Some("Kotlin".to_string()));
}

#[test]
fn built_in_aliases_resolve_to_registered_skills() {
    let t = SkillTaxonomy::new();
    let go = t.get_skill("Golang").unwrap();
    assert_eq!(go.name, "go");
    assert_eq!(go.category, SkillCategory::Language);
    assert_eq!(t.get_skill("K8S").unwrap().id, "kubernetes");
    assert!(t.get_skill("cobol").is_none());
    let react = t.get_skill("React.js").unwrap();
    assert_eq!(t.normalize_skill_name(&react.name), "react");
    assert_eq!(react.aliases, vec!["reactjs".to_string(), "react.js".to_string()]);
}
