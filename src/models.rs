//! The records that flow through ingestion, batching, aggregation and rating.
//!
//! Instants are whole seconds since the Unix epoch; fractions in [0, 1] are
//! kept in thousandths (0 ..= 1000).
use vstd::prelude::*;

verus! {

/// Seconds in one day.
pub const SECONDS_PER_DAY: i64 = 86400;

#[derive(Debug, Clone, PartialEq, Eq, Structural)]
pub struct CommitStats {
    pub additions: u32,
    pub deletions: u32,
    pub total: u32,
}

impl CommitStats {
    pub fn empty() -> (r: CommitStats)
        ensures
            r.additions == 0 && r.deletions == 0 && r.total == 0,
    {
        CommitStats { additions: 0, deletions: 0, total: 0 }
    }
}

#[derive(Debug, Clone)]
pub struct CommitAuthor {
    pub name: String,
    pub email: String,
    /// Authoring instant, seconds since the Unix epoch.
    pub date: i64,
}

#[derive(Debug, Clone)]
pub struct CommitAuthorInfo {
    pub login: String,
}

#[derive(Debug, Clone)]
pub struct CommitDetails {
    pub message: String,
    pub author: CommitAuthor,
}

#[derive(Debug, Clone)]
pub struct CommitSummary {
    pub sha: String,
    pub commit: CommitDetails,
    pub author: Option<CommitAuthorInfo>,
}

#[derive(Debug, Clone)]
pub struct FileChange {
    pub filename: String,
    pub status: String,
    pub additions: u32,
    pub deletions: u32,
    pub patch: Option<String>,
}

#[derive(Debug, Clone)]
pub struct Commit {
    pub sha: String,
    pub commit: CommitDetails,
    pub stats: Option<CommitStats>,
    pub files: Option<Vec<FileChange>>,
}

#[derive(Debug, Clone, Copy, PartialEq, Eq, Structural)]
pub enum FileStatus {
    Added,
    Modified,
    Deleted,
    Renamed,
    Copied,
}

/// The status a status label names; unknown labels count as modified.
pub open spec fn status_of(label: Seq<char>) -> FileStatus {
    let l = crate::text::lower_of(label);
    if l == "added"@ {
        FileStatus::Added
    } else if l == "modified"@ {
        FileStatus::Modified
    } else if l == "deleted"@ || l == "removed"@ {
        FileStatus::Deleted
    } else if l == "renamed"@ {
        FileStatus::Renamed
    } else if l == "copied"@ {
        FileStatus::Copied
    } else {
        FileStatus::Modified
    }
}

impl<'a> From<&'a str> for FileStatus {
    fn from(s: &'a str) -> (r: FileStatus) {
        let lowered = crate::text::lowercase(s);
        let l = crate::text::chars_of(lowered.as_str());
        if crate::text::is_text(&l, "added") {
            FileStatus::Added
        } else if crate::text::is_text(&l, "modified") {
            FileStatus::Modified
        } else if crate::text::is_text(&l, "deleted") || crate::text::is_text(&l, "removed") {
            FileStatus::Deleted
        } else if crate::text::is_text(&l, "renamed") {
            FileStatus::Renamed
        } else if crate::text::is_text(&l, "copied") {
            FileStatus::Copied
        } else {
            FileStatus::Modified
        }
    }
}

impl<'a> vstd::std_specs::convert::FromSpecImpl<&'a str> for FileStatus {
    open spec fn obeys_from_spec() -> bool {
        true
    }

    open spec fn from_spec(s: &'a str) -> FileStatus {
        status_of(s@)
    }
}

#[derive(Debug, Clone)]
pub struct FileForAnalysis {
    pub filename: String,
    pub language: Option<String>,
    pub diff: String,
    pub additions: u32,
    pub deletions: u32,
}

/// What a file of a commit holds, as mathematical values.
pub struct FileView {
    pub filename: Seq<char>,
    pub language: Option<Seq<char>>,
    pub diff: Seq<char>,
    pub additions: u32,
    pub deletions: u32,
}

pub open spec fn text_opt(o: Option<String>) -> Option<Seq<char>> {
    match o {
        Some(s) => Some(s@),
        None => None,
    }
}

impl View for FileForAnalysis {
    type V = FileView;

    open spec fn view(&self) -> FileView {
        FileView {
            filename: self.filename@,
            language: text_opt(self.language),
            diff: self.diff@,
            additions: self.additions,
            deletions: self.deletions,
        }
    }
}

/// A copy of an optional text.
pub fn copy_text_opt(o: &Option<String>) -> (r: Option<String>)
    ensures
        text_opt(r) == text_opt(*o),
{
    match o {
        Some(s) => Some(s.clone()),
        None => None,
    }
}

impl FileForAnalysis {
    /// A field-by-field copy.
    pub fn duplicate(&self) -> (r: FileForAnalysis)
        ensures
            r@ == self@,
    {
        FileForAnalysis {
            filename: self.filename.clone(),
            language: copy_text_opt(&self.language),
            diff: self.diff.clone(),
            additions: self.additions,
            deletions: self.deletions,
        }
    }
}

/// What a prepared commit holds, as mathematical values.
pub struct CommitView {
    pub sha: Seq<char>,
    pub repository: Seq<char>,
    pub message: Seq<char>,
    pub stats: CommitStats,
    pub files: Seq<FileView>,
    pub committed_at: i64,
}

pub open spec fn file_views(fs: Seq<FileForAnalysis>) -> Seq<FileView> {
    fs.map_values(|f: FileForAnalysis| f@)
}

impl View for CommitForAnalysis {
    type V = CommitView;

    open spec fn view(&self) -> CommitView {
        CommitView {
            sha: self.sha@,
            repository: self.repository@,
            message: self.message@,
            stats: self.stats,
            files: file_views(self.files_changed@),
            committed_at: self.committed_at,
        }
    }
}

#[derive(Debug, Clone)]
pub struct CommitForAnalysis {
    pub sha: String,
    pub repository: String,
    pub message: String,
    pub stats: CommitStats,
    pub files_changed: Vec<FileForAnalysis>,
    /// Authoring instant, seconds since the Unix epoch.
    pub committed_at: i64,
}

#[derive(Debug, Clone)]
pub struct RepositoryOwner {
    pub login: String,
}

#[derive(Debug, Clone)]
pub struct Repository {
    pub id: u64,
    pub name: String,
    pub full_name: String,
    pub description: Option<String>,
    pub language: Option<String>,
    pub stargazers_count: u32,
    pub forks_count: u32,
    pub fork: bool,
    pub created_at: i64,
    pub updated_at: i64,
    pub owner: RepositoryOwner,
}

#[derive(Debug, Clone)]
pub struct GitHubUser {
    pub login: String,
    pub id: u64,
    pub name: Option<String>,
    pub email: Option<String>,
    pub avatar_url: String,
    pub bio: Option<String>,
    pub company: Option<String>,
    pub location: Option<String>,
    pub public_repos: u32,
    pub followers: u32,
    pub following: u32,
    pub created_at: i64,
}

#[derive(Debug, Clone)]
pub struct LanguageBreakdown {
    pub language: String,
    pub bytes: u64,
    /// Share of the code base in hundredths of a percent.
    pub percentage: u32,
}

#[derive(Debug, Clone, Copy, PartialEq, Eq, Structural)]
pub enum SkillCategory {
    Language,
    Framework,
    Library,
    Tool,
    Domain,
    Practice,
    Concept,
}

#[derive(Debug, Clone, Copy, PartialEq, Eq, Structural)]
pub enum SkillDomain {
    Frontend,
    Backend,
    FullStack,
    Mobile,
    DevOps,
    DataScience,
    MachineLearning,
    Security,
    Database,
    Cloud,
    Embedded,
    SystemsProgramming,
}

#[derive(Debug, Clone, Copy, PartialEq, Eq, Structural)]
pub enum SkillTrend {
    Improving,
    Stable,
    Declining,
    New,
    Dormant,
}

#[derive(Debug, Clone, Copy, PartialEq, Eq, Structural)]
pub enum ExperienceLevel {
    Junior,
    Mid,
    Senior,
    Staff,
    Principal,
}

#[derive(Debug, Clone)]
pub struct Skill {
    pub id: String,
    pub name: String,
    pub category: SkillCategory,
    pub subcategory: Option<String>,
    pub aliases: Vec<String>,
}

#[derive(Debug, Clone)]
pub struct SkillEvidence {
    pub commit_count: u32,
    pub total_lines_changed: u32,
    pub first_seen: i64,
    pub last_seen: i64,
    pub repositories: Vec<String>,
}

#[derive(Debug, Clone)]
pub struct SkillRating {
    pub skill: Skill,
    /// Final proficiency score, 1 ..= 100.
    pub proficiency_score: u8,
    pub percentile_rank: Option<u8>,
    /// Confidence in thousandths, 0 ..= 1000.
    pub confidence: u32,
    pub evidence: SkillEvidence,
    pub trend: SkillTrend,
}

#[derive(Debug, Clone)]
pub struct SkillOccurrence {
    pub commit_sha: String,
    pub repository: String,
    pub timestamp: i64,
    pub evidence: Vec<String>,
    pub proficiency_signal: String,
    /// Confidence in thousandths, 0 ..= 1000.
    pub confidence: u32,
    pub lines_changed: u32,
}

#[derive(Debug, Clone)]
pub struct AggregatedSkill {
    pub skill: Skill,
    pub occurrences: Vec<SkillOccurrence>,
    pub total_lines: u32,
    pub complexity_scores: Vec<u8>,
    pub quality_scores: Vec<u8>,
}

pub open spec fn repository_names(occ: Seq<SkillOccurrence>) -> Seq<Seq<char>> {
    occ.map_values(|o: SkillOccurrence| o.repository@)
}

pub open spec fn texts(v: Seq<String>) -> Seq<Seq<char>> {
    v.map_values(|s: String| s@)
}

/// `reps` lists each repository of `occ` exactly once.
pub open spec fn lists_repositories(reps: Seq<String>, occ: Seq<SkillOccurrence>) -> bool {
    texts(reps).to_set() == repository_names(occ).to_set() && texts(reps).no_duplicates()
}

proof fn lemma_lists_repositories(reps: Seq<String>, occ: Seq<SkillOccurrence>, src: Seq<int>, pos: Seq<int>)
    requires
        src.len() == reps.len(),
        pos.len() == occ.len(),
        forall|k: int| 0 <= k < reps.len() ==> 0 <= #[trigger] src[k] < occ.len() && reps[k]@ == occ[src[k]].repository@,
        forall|j: int| 0 <= j < occ.len() ==> 0 <= #[trigger] pos[j] < reps.len() && reps[pos[j]]@ == occ[j].repository@,
        forall|a: int, b: int| 0 <= a < b < reps.len() ==> (#[trigger] reps[a])@ != (#[trigger] reps[b])@,
    ensures
        lists_repositories(reps, occ),
{
    let t = texts(reps);
    let r = repository_names(occ);
    assert forall|x: Seq<char>| t.to_set().contains(x) <==> r.to_set().contains(x) by {
        if t.contains(x) {
            let k = choose|k: int| 0 <= k < t.len() && t[k] == x;
            assert(r[src[k]] == x);
        }
        if r.contains(x) {
            let j = choose|j: int| 0 <= j < r.len() && r[j] == x;
            assert(t[pos[j]] == x);
        }
    }
    assert(t.to_set() =~= r.to_set());
    assert forall|a: int, b: int| 0 <= a < t.len() && 0 <= b < t.len() && a != b implies t[a] != t[b] by {
        if a < b {
            assert(reps[a]@ != reps[b]@);
        } else {
            assert(reps[b]@ != reps[a]@);
        }
    }
}

impl AggregatedSkill {
    /// The distinct repositories of the occurrences, in order of first appearance.
    pub fn repositories(&self) -> (r: Vec<String>)
        ensures
            lists_repositories(r@, self.occurrences@),
    {
        let occ = &self.occurrences;
        let mut out: Vec<String> = Vec::new();
        let ghost mut src: Seq<int> = Seq::empty();
        let ghost mut pos: Seq<int> = Seq::empty();
        let mut i: usize = 0;
        while i < occ.len()
            invariant
                i <= occ@.len(),
                src.len() == out@.len(),
                pos.len() == i,
                forall|k: int| 0 <= k < out@.len() ==> 0 <= #[trigger] src[k] < i && out@[k]@ == occ@[src[k]].repository@,
                forall|j: int| 0 <= j < i ==> 0 <= #[trigger] pos[j] < out@.len() && out@[pos[j]]@ == occ@[j].repository@,
                forall|a: int, b: int| 0 <= a < b < out@.len() ==> (#[trigger] out@[a])@ != (#[trigger] out@[b])@,
            decreases occ.len() - i,
        {
            let repo = &occ[i].repository;
            let mut found: Option<usize> = None;
            let mut k: usize = 0;
            while k < out.len()
                invariant
                    k <= out@.len(),
                    found matches Some(m) ==> m < out@.len() && out@[m as int]@ == repo@,
                    found is None ==> forall|m: int| 0 <= m < k ==> (#[trigger] out@[m])@ != repo@,
                decreases out.len() - k,
            {
                if crate::text::same_text(out[k].as_str(), repo.as_str()) {
                    found = Some(k);
                }
                k = k + 1;
            }
            match found {
                Some(m) => {
                    proof {
                        pos = pos.push(m as int);
                    }
                },
                None => {
                    out.push(repo.clone());
                    proof {
                        src = src.push(i as int);
                        pos = pos.push((out@.len() - 1) as int);
                    }
                },
            }
            i = i + 1;
        }
        proof {
            lemma_lists_repositories(out@, self.occurrences@, src, pos);
        }
        out
    }

    pub fn new(skill: Skill) -> (r: AggregatedSkill)
        ensures
            r.skill == skill,
            r.occurrences@.len() == 0,
            r.total_lines == 0,
            r.complexity_scores@.len() == 0,
            r.quality_scores@.len() == 0,
    {
        AggregatedSkill {
            skill,
            occurrences: Vec::new(),
            total_lines: 0,
            complexity_scores: Vec::new(),
            quality_scores: Vec::new(),
        }
    }
}

#[derive(Debug, Clone)]
pub struct ExtractedSkill {
    pub name: String,
    pub category: String,
    pub proficiency_level: String,
    /// Confidence in thousandths, 0 ..= 1000.
    pub confidence: u32,
    pub evidence: Vec<String>,
}

#[derive(Debug, Clone)]
pub struct DetectedPattern {
    pub pattern_type: String,
    pub name: String,
    pub description: String,
    /// Effect on quality in thousandths, -1000 ..= 1000.
    pub quality_impact: i32,
}

#[derive(Debug, Clone)]
pub struct ComplexityAssessment {
    pub overall_score: u8,
    pub algorithmic_complexity: u8,
    pub architectural_complexity: u8,
    pub reasoning: String,
}

#[derive(Debug, Clone)]
pub struct QualityAssessment {
    pub code_quality: u8,
    /// Estimated test coverage in thousandths, 0 ..= 1000.
    pub testing_coverage: u32,
    pub documentation_quality: u8,
    pub error_handling: u8,
    pub observations: Vec<String>,
}

#[derive(Debug, Clone)]
pub struct LLMAnalysisResult {
    pub skills: Vec<ExtractedSkill>,
    pub patterns: Vec<DetectedPattern>,
    pub complexity_assessment: ComplexityAssessment,
    pub quality_assessment: QualityAssessment,
    pub domain_signals: Vec<String>,
    pub notable_aspects: Vec<String>,
}

/// What a strength or weakness holds, as mathematical values.
pub struct FindingView {
    pub area: Seq<char>,
    pub description: Seq<char>,
    pub evidence: Seq<Seq<char>>,
    pub score: u8,
}

impl View for StrengthWeakness {
    type V = FindingView;

    open spec fn view(&self) -> FindingView {
        FindingView { area: self.area@, description: self.description@, evidence: texts(self.evidence@), score: self.score }
    }
}

pub open spec fn category_name(c: SkillCategory) -> Seq<char> {
    match c {
        SkillCategory::Language => "Language"@,
        SkillCategory::Framework => "Framework"@,
        SkillCategory::Library => "Library"@,
        SkillCategory::Tool => "Tool"@,
        SkillCategory::Domain => "Domain"@,
        SkillCategory::Practice => "Practice"@,
        SkillCategory::Concept => "Concept"@,
    }
}

impl SkillCategory {
    /// The category's display name.
    pub fn name(&self) -> (r: String)
        ensures
            r@ == category_name(*self),
    {
        match self {
            SkillCategory::Language => String::from_str("Language"),
            SkillCategory::Framework => String::from_str("Framework"),
            SkillCategory::Library => String::from_str("Library"),
            SkillCategory::Tool => String::from_str("Tool"),
            SkillCategory::Domain => String::from_str("Domain"),
            SkillCategory::Practice => String::from_str("Practice"),
            SkillCategory::Concept => String::from_str("Concept"),
        }
    }
}

pub open spec fn trend_name(t: SkillTrend) -> Seq<char> {
    match t {
        SkillTrend::Improving => "Improving"@,
        SkillTrend::Stable => "Stable"@,
        SkillTrend::Declining => "Declining"@,
        SkillTrend::New => "New"@,
        SkillTrend::Dormant => "Dormant"@,
    }
}

impl SkillCategory {
    /// The category whose display name is `name`; other names are concepts.
    pub fn from_name(name: &str) -> (r: SkillCategory)
        ensures
            name@ == category_name(r) || (r == SkillCategory::Concept && forall|c: SkillCategory| category_name(c) != name@),
    {
        let v = crate::text::chars_of(name);
        if crate::text::is_text(&v, "Language") {
            SkillCategory::Language
        } else if crate::text::is_text(&v, "Framework") {
            SkillCategory::Framework
        } else if crate::text::is_text(&v, "Library") {
            SkillCategory::Library
        } else if crate::text::is_text(&v, "Tool") {
            SkillCategory::Tool
        } else if crate::text::is_text(&v, "Domain") {
            SkillCategory::Domain
        } else if crate::text::is_text(&v, "Practice") {
            SkillCategory::Practice
        } else {
            proof {
                assert forall|c: SkillCategory| category_name(c) != name@ || c == SkillCategory::Concept by {}
            }
            SkillCategory::Concept
        }
    }
}

impl SkillTrend {
    /// The trend whose display name is `name`; other names read as dormant.
    pub fn from_name(name: &str) -> (r: SkillTrend)
        ensures
            name@ == trend_name(r) || (r == SkillTrend::Dormant && forall|t: SkillTrend| trend_name(t) != name@),
    {
        let v = crate::text::chars_of(name);
        if crate::text::is_text(&v, "Improving") {
            SkillTrend::Improving
        } else if crate::text::is_text(&v, "Stable") {
            SkillTrend::Stable
        } else if crate::text::is_text(&v, "Declining") {
            SkillTrend::Declining
        } else if crate::text::is_text(&v, "New") {
            SkillTrend::New
        } else {
            proof {
                assert forall|t: SkillTrend| trend_name(t) != name@ || t == SkillTrend::Dormant by {}
            }
            SkillTrend::Dormant
        }
    }
}

/// The share of `total` ratings that `below` of them make, as a whole
/// percentage rounded half up; none without ratings.
pub fn percentile_rank(below: u64, total: u64) -> (r: Option<u8>)
    requires
        below <= total,
    ensures
        total == 0 ==> r is None,
        total > 0 ==> r == Some(((200 * below as nat + total as nat) / (2 * total as nat)) as u8),
{
    if total == 0 {
        return None;
    }
    let p: u128 = (200 * below as u128 + total as u128) / (2 * total as u128);
    proof {
        vstd::arithmetic::div_mod::lemma_div_is_ordered((200 * below + total) as int, (201 * total) as int, (2 * total) as int);
        assert((201 * total) as int / (2 * total) as int <= 100) by (nonlinear_arith)
            requires total > 0;
    }
    Some(p as u8)
}

impl SkillTrend {
    /// The trend's display name.
    pub fn name(&self) -> (r: String)
        ensures
            r@ == trend_name(*self),
    {
        match self {
            SkillTrend::Improving => String::from_str("Improving"),
            SkillTrend::Stable => String::from_str("Stable"),
            SkillTrend::Declining => String::from_str("Declining"),
            SkillTrend::New => String::from_str("New"),
            SkillTrend::Dormant => String::from_str("Dormant"),
        }
    }
}

impl ExperienceLevel {
    /// The level's display name.
    pub fn name(&self) -> (r: String)
        ensures
            r@ == (match *self {
                ExperienceLevel::Junior => "Junior"@,
                ExperienceLevel::Mid => "Mid-Level"@,
                ExperienceLevel::Senior => "Senior"@,
                ExperienceLevel::Staff => "Staff"@,
                ExperienceLevel::Principal => "Principal"@,
            }),
    {
        match self {
            ExperienceLevel::Junior => String::from_str("Junior"),
            ExperienceLevel::Mid => String::from_str("Mid-Level"),
            ExperienceLevel::Senior => String::from_str("Senior"),
            ExperienceLevel::Staff => String::from_str("Staff"),
            ExperienceLevel::Principal => String::from_str("Principal"),
        }
    }
}

#[derive(Debug, Clone)]
pub struct StrengthWeakness {
    pub area: String,
    pub description: String,
    pub evidence: Vec<String>,
    pub score: u8,
}

#[derive(Debug, Clone)]
pub struct CodingStyle {
    pub prefers_small_commits: bool,
    /// Mean estimated test coverage in thousandths.
    pub writes_tests: u32,
    /// Mean documentation quality in thousandths of the top mark.
    pub documents_code: u32,
    pub refactors_regularly: bool,
    /// Mean code quality in thousandths of the top mark.
    pub follows_conventions: u32,
}

impl CodingStyle {
    pub fn baseline() -> (r: CodingStyle)
        ensures
            r.prefers_small_commits,
            !r.refactors_regularly,
            r.writes_tests == 0 && r.documents_code == 0 && r.follows_conventions == 0,
    {
        CodingStyle {
            prefers_small_commits: true,
            writes_tests: 0,
            documents_code: 0,
            refactors_regularly: false,
            follows_conventions: 0,
        }
    }
}

#[derive(Debug, Clone)]
pub struct ProfileSummary {
    pub primary_languages: Vec<String>,
    pub primary_domains: Vec<SkillDomain>,
    pub strengths: Vec<StrengthWeakness>,
    pub weaknesses: Vec<StrengthWeakness>,
    pub experience_level: ExperienceLevel,
    pub coding_style: CodingStyle,
}

impl ProfileSummary {
    /// The summary of a profile with no analysed commits.
    pub fn empty() -> (r: ProfileSummary)
        ensures
            r.primary_languages@.len() == 0,
            r.primary_domains@.len() == 0,
            r.strengths@.len() == 0,
            r.weaknesses@.len() == 0,
            r.experience_level == ExperienceLevel::Mid,
            r.coding_style.prefers_small_commits,
    {
        ProfileSummary {
            primary_languages: Vec::new(),
            primary_domains: Vec::new(),
            strengths: Vec::new(),
            weaknesses: Vec::new(),
            experience_level: ExperienceLevel::Mid,
            coding_style: CodingStyle::baseline(),
        }
    }
}

#[derive(Debug, Clone)]
pub struct UserProfile {
    pub user: GitHubUser,
    pub repositories: Vec<Repository>,
    pub total_commits_analyzed: u32,
    pub analysis_date: i64,
    pub skills: Vec<SkillRating>,
    pub summary: ProfileSummary,
}

impl Default for ProfileSummary {
    fn default() -> (r: ProfileSummary)
        ensures
            r.primary_languages@.len() == 0,
            r.primary_domains@.len() == 0,
            r.strengths@.len() == 0,
            r.weaknesses@.len() == 0,
            r.experience_level == ExperienceLevel::Mid,
            r.coding_style.prefers_small_commits,
    {
        ProfileSummary::empty()
    }
}

impl Default for CodingStyle {
    fn default() -> (r: CodingStyle)
        ensures
            r.prefers_small_commits,
            !r.refactors_regularly,
            r.writes_tests == 0 && r.documents_code == 0 && r.follows_conventions == 0,
    {
        CodingStyle::baseline()
    }
}

impl Default for ComplexityAssessment {
    /// Middling marks and no reasoning.
    fn default() -> (r: ComplexityAssessment)
        ensures
            r.overall_score == 5 && r.algorithmic_complexity == 5 && r.architectural_complexity == 5,
            r.reasoning@.len() == 0,
    {
        ComplexityAssessment {
            overall_score: 5,
            algorithmic_complexity: 5,
            architectural_complexity: 5,
            reasoning: String::new(),
        }
    }
}

impl Default for QualityAssessment {
    /// Middling marks, no test coverage and no observations.
    fn default() -> (r: QualityAssessment)
        ensures
            r.code_quality == 5 && r.documentation_quality == 5 && r.error_handling == 5,
            r.testing_coverage == 0,
            r.observations@.len() == 0,
    {
        QualityAssessment {
            code_quality: 5,
            testing_coverage: 0,
            documentation_quality: 5,
            error_handling: 5,
            observations: Vec::new(),
        }
    }
}

} // verus!
