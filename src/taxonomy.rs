//! Canonical skill identities and the aliases that resolve to them.
use vstd::prelude::*;
use crate::models::{copy_text_opt, text_opt, texts, Skill, SkillCategory};
use crate::text::{chars_of, lower_of, lowercase, is_text, lemma_lookup_absent, lemma_lookup_at, lemma_lookup_found, lookup, string_of};

verus! {

/// `s` with every space replaced by an underscore.
pub open spec fn underscored(s: Seq<char>) -> Seq<char> {
    s.map_values(|c: char| if c == ' ' { '_' } else { c })
}

/// The identity `name` resolves to under the alias table `aliases`: its
/// lowercase form, or the canonical name that form is an alias of.
pub open spec fn normalized(aliases: Seq<(Seq<char>, Seq<char>)>, name: Seq<char>) -> Seq<char> {
    match lookup(aliases, lower_of(name)) {
        Some(c) => c,
        None => lower_of(name),
    }
}

/// The category a free-form category label names.
pub open spec fn category_of(label: Seq<char>) -> SkillCategory {
    let l = lower_of(label);
    if l == "language"@ {
        SkillCategory::Language
    } else if l == "framework"@ {
        SkillCategory::Framework
    } else if l == "library"@ {
        SkillCategory::Library
    } else if l == "tool"@ {
        SkillCategory::Tool
    } else if l == "domain"@ {
        SkillCategory::Domain
    } else if l == "practice"@ {
        SkillCategory::Practice
    } else {
        SkillCategory::Concept
    }
}

/// A copy of `s` with every space replaced by an underscore.
pub fn underscore_spaces(s: &str) -> (r: String)
    ensures
        r@ == underscored(s@),
{
    let cs = chars_of(s);
    let mut out: Vec<char> = Vec::new();
    let mut i: usize = 0;
    while i < cs.len()
        invariant
            cs@ == s@,
            i <= cs.len(),
            out@ == underscored(s@).subrange(0, i as int),
        decreases cs.len() - i,
    {
        let c = cs[i];
        out.push(if c == ' ' { '_' } else { c });
        i = i + 1;
        assert(out@ =~= underscored(s@).subrange(0, i as int));
    }
    assert(out@ =~= underscored(s@));
    string_of(&out)
}

/// Copies of every text in `v`, in order.
pub fn copy_texts(v: &[&str]) -> (r: Vec<String>)
    ensures
        r@.len() == v@.len(),
        forall|i: int| 0 <= i < v@.len() ==> (#[trigger] r@[i])@ == v@[i]@,
{
    let mut out: Vec<String> = Vec::new();
    let mut i: usize = 0;
    while i < v.len()
        invariant
            i <= v@.len(),
            out@.len() == i,
            forall|k: int| 0 <= k < i ==> (#[trigger] out@[k])@ == v@[k]@,
        decreases v.len() - i,
    {
        out.push(String::from_str(v[i]));
        i = i + 1;
    }
    out
}

impl Skill {
    /// A field-by-field copy.
    pub fn duplicate(&self) -> (r: Skill)
        ensures
            r.id@ == self.id@,
            r.name@ == self.name@,
            r.category == self.category,
            text_opt(r.subcategory) == text_opt(self.subcategory),
            texts(r.aliases@) == texts(self.aliases@),
    {
        Skill {
            id: self.id.clone(),
            name: self.name.clone(),
            category: self.category,
            subcategory: copy_text_opt(&self.subcategory),
            aliases: crate::extractor::copy_strings(&self.aliases),
        }
    }
}

struct AliasEntry {
    alias: String,
    canonical: String,
}

struct SkillEntry {
    key: String,
    skill: Skill,
}

/// The dictionary of known skills: canonical skills keyed by their
/// lowercase name, and aliases that resolve to those names.
pub struct SkillTaxonomy {
    skills: Vec<SkillEntry>,
    aliases: Vec<AliasEntry>,
}

impl SkillTaxonomy {
    /// The alias table: pairs of (alias, canonical name).
    pub closed spec fn alias_table(&self) -> Seq<(Seq<char>, Seq<char>)> {
        self.aliases@.map_values(|e: AliasEntry| (e.alias@, e.canonical@))
    }

    /// A canonical skill is registered under key `k`.
    pub closed spec fn has_skill(&self, k: Seq<char>) -> bool {
        exists|i: int| 0 <= i < self.skills@.len() && #[trigger] self.skills@[i].key@ == k
    }

    /// The skill registered under key `k`.
    pub closed spec fn skill_at(&self, k: Seq<char>) -> Skill {
        self.skills@[choose|i: int| 0 <= i < self.skills@.len() && #[trigger] self.skills@[i].key@ == k].skill
    }

    /// Every built-in canonical skill is registered.
    pub open spec fn has_builtin_skills(&self) -> bool {
        self.has_skill(lower_of("rust"@))
            && self.has_skill(lower_of("python"@))
            && self.has_skill(lower_of("javascript"@))
            && self.has_skill(lower_of("typescript"@))
            && self.has_skill(lower_of("go"@))
            && self.has_skill(lower_of("java"@))
            && self.has_skill(lower_of("kotlin"@))
            && self.has_skill(lower_of("swift"@))
            && self.has_skill(lower_of("c"@))
            && self.has_skill(lower_of("cpp"@))
            && self.has_skill(lower_of("csharp"@))
            && self.has_skill(lower_of("ruby"@))
            && self.has_skill(lower_of("php"@))
            && self.has_skill(lower_of("scala"@))
            && self.has_skill(lower_of("haskell"@))
            && self.has_skill(lower_of("elixir"@))
            && self.has_skill(lower_of("sql"@))
            && self.has_skill(lower_of("shell"@))
            && self.has_skill(lower_of("react"@))
            && self.has_skill(lower_of("vue"@))
            && self.has_skill(lower_of("angular"@))
            && self.has_skill(lower_of("svelte"@))
            && self.has_skill(lower_of("nextjs"@))
            && self.has_skill(lower_of("nuxt"@))
            && self.has_skill(lower_of("express"@))
            && self.has_skill(lower_of("django"@))
            && self.has_skill(lower_of("flask"@))
            && self.has_skill(lower_of("fastapi"@))
            && self.has_skill(lower_of("spring"@))
            && self.has_skill(lower_of("rails"@))
            && self.has_skill(lower_of("actix"@))
            && self.has_skill(lower_of("axum"@))
            && self.has_skill(lower_of("rocket"@))
            && self.has_skill(lower_of("gin"@))
            && self.has_skill(lower_of("echo"@))
            && self.has_skill(lower_of("react native"@))
            && self.has_skill(lower_of("flutter"@))
            && self.has_skill(lower_of("swiftui"@))
            && self.has_skill(lower_of("docker"@))
            && self.has_skill(lower_of("kubernetes"@))
            && self.has_skill(lower_of("terraform"@))
            && self.has_skill(lower_of("aws"@))
            && self.has_skill(lower_of("gcp"@))
            && self.has_skill(lower_of("azure"@))
            && self.has_skill(lower_of("git"@))
            && self.has_skill(lower_of("github actions"@))
            && self.has_skill(lower_of("gitlab ci"@))
            && self.has_skill(lower_of("jenkins"@))
            && self.has_skill(lower_of("postgresql"@))
            && self.has_skill(lower_of("mysql"@))
            && self.has_skill(lower_of("mongodb"@))
            && self.has_skill(lower_of("redis"@))
            && self.has_skill(lower_of("elasticsearch"@))
            && self.has_skill(lower_of("graphql"@))
            && self.has_skill(lower_of("rest api"@))
            && self.has_skill(lower_of("machine learning"@))
            && self.has_skill(lower_of("data science"@))
            && self.has_skill(lower_of("devops"@))
            && self.has_skill(lower_of("security"@))
            && self.has_skill(lower_of("frontend"@))
            && self.has_skill(lower_of("backend"@))
            && self.has_skill(lower_of("fullstack"@))
            && self.has_skill(lower_of("mobile"@))
            && self.has_skill(lower_of("embedded"@))
            && self.has_skill(lower_of("distributed systems"@))
            && self.has_skill(lower_of("databases"@))
            && self.has_skill(lower_of("testing"@))
            && self.has_skill(lower_of("documentation"@))
            && self.has_skill(lower_of("code review"@))
            && self.has_skill(lower_of("ci/cd"@))
            && self.has_skill(lower_of("agile"@))
            && self.has_skill(lower_of("clean code"@))
            && self.has_skill(lower_of("refactoring"@))
            && self.has_skill(lower_of("debugging"@))
            && self.has_skill(lower_of("performance optimization"@))
            && self.has_skill(lower_of("error handling"@))
    }

    /// `r` is the skill that `name` gives: a copy of the registered skill it
    /// resolves to, or else a new skill of `category` named `name`, with no
    /// subcategory or aliases; either way its id is the normal form with
    /// spaces turned into underscores.
    pub open spec fn skill_for(&self, name: Seq<char>, category: SkillCategory, r: Skill) -> bool {
        let k = self.normal_form(name);
        &&& r.id@ == underscored(k)
        &&& self.has_skill(k) ==> {
            &&& r.name@ == self.skill_at(k).name@
            &&& r.category == self.skill_at(k).category
            &&& text_opt(r.subcategory) == text_opt(self.skill_at(k).subcategory)
            &&& texts(r.aliases@) == texts(self.skill_at(k).aliases@)
        }
        &&& !self.has_skill(k) ==> {
            &&& r.name@ == name
            &&& r.category == category
            &&& r.aliases@.len() == 0
            &&& r.subcategory is None
        }
    }

    /// The identity `name` resolves to in this taxonomy.
    pub open spec fn normal_form(&self, name: Seq<char>) -> Seq<char> {
        normalized(self.alias_table(), name)
    }

    /// Every alias targets a registered skill; no alias shares its text
    /// with a skill key or with another alias; skill keys are unique; each
    /// skill's key is the lowercase form of its name, and its id is the key
    /// with spaces turned into underscores.
    pub closed spec fn wf(&self) -> bool {
        &&& (forall|i: int| 0 <= i < self.aliases@.len() ==> self.has_skill((#[trigger] self.aliases@[i]).canonical@))
        &&& (forall|i: int, j: int| 0 <= i < self.aliases@.len() && 0 <= j < self.skills@.len()
            ==> #[trigger] self.aliases@[i].alias@ != #[trigger] self.skills@[j].key@)
        &&& (forall|i: int, j: int| 0 <= i < j < self.aliases@.len()
            ==> #[trigger] self.aliases@[i].alias@ != #[trigger] self.aliases@[j].alias@)
        &&& (forall|i: int, j: int| 0 <= i < j < self.skills@.len()
            ==> #[trigger] self.skills@[i].key@ != #[trigger] self.skills@[j].key@)
        &&& (forall|i: int| 0 <= i < self.skills@.len() ==> {
            &&& (#[trigger] self.skills@[i]).skill.id@ == underscored(self.skills@[i].key@)
            &&& self.skills@[i].key@ == lower_of(self.skills@[i].skill.name@)
        })
    }

    /// The taxonomy with the built-in languages, frameworks, tools, domains and practices.
    pub fn new() -> (r: SkillTaxonomy)
        ensures
            r.wf(),
            r.has_builtin_skills(),
    {
        let mut taxonomy = SkillTaxonomy { skills: Vec::new(), aliases: Vec::new() };
        taxonomy.init_languages();
        taxonomy.init_frameworks();
        taxonomy.init_tools();
        taxonomy.init_domains();
        taxonomy.init_practices();
        taxonomy
    }

    /// Programming languages.
    fn init_languages(&mut self)
        requires
            old(self).wf(),
        ensures
            final(self).wf(),
            forall|k: Seq<char>| old(self).has_skill(k) ==> final(self).has_skill(k),
            final(self).has_skill(lower_of("rust"@)),
            final(self).has_skill(lower_of("python"@)),
            final(self).has_skill(lower_of("javascript"@)),
            final(self).has_skill(lower_of("typescript"@)),
            final(self).has_skill(lower_of("go"@)),
            final(self).has_skill(lower_of("java"@)),
            final(self).has_skill(lower_of("kotlin"@)),
            final(self).has_skill(lower_of("swift"@)),
            final(self).has_skill(lower_of("c"@)),
            final(self).has_skill(lower_of("cpp"@)),
            final(self).has_skill(lower_of("csharp"@)),
            final(self).has_skill(lower_of("ruby"@)),
            final(self).has_skill(lower_of("php"@)),
            final(self).has_skill(lower_of("scala"@)),
            final(self).has_skill(lower_of("haskell"@)),
            final(self).has_skill(lower_of("elixir"@)),
            final(self).has_skill(lower_of("sql"@)),
            final(self).has_skill(lower_of("shell"@)),
    {
        self.add_skill("rust", SkillCategory::Language, &["rs"]);
        self.add_skill("python", SkillCategory::Language, &["py", "python3"]);
        self.add_skill("javascript", SkillCategory::Language, &["js", "ecmascript", "es6", "es2015"]);
        self.add_skill("typescript", SkillCategory::Language, &["ts"]);
        self.add_skill("go", SkillCategory::Language, &["golang"]);
        self.add_skill("java", SkillCategory::Language, &[]);
        self.add_skill("kotlin", SkillCategory::Language, &["kt"]);
        self.add_skill("swift", SkillCategory::Language, &[]);
        self.add_skill("c", SkillCategory::Language, &[]);
        self.add_skill("cpp", SkillCategory::Language, &["c++", "cxx"]);
        self.add_skill("csharp", SkillCategory::Language, &["c#", "cs"]);
        self.add_skill("ruby", SkillCategory::Language, &["rb"]);
        self.add_skill("php", SkillCategory::Language, &[]);
        self.add_skill("scala", SkillCategory::Language, &[]);
        self.add_skill("haskell", SkillCategory::Language, &["hs"]);
        self.add_skill("elixir", SkillCategory::Language, &["ex"]);
        self.add_skill("sql", SkillCategory::Language, &["plsql", "tsql"]);
        self.add_skill("shell", SkillCategory::Language, &["bash", "sh", "zsh"]);
    }

    /// Front-end, back-end and mobile frameworks.
    fn init_frameworks(&mut self)
        requires
            old(self).wf(),
        ensures
            final(self).wf(),
            forall|k: Seq<char>| old(self).has_skill(k) ==> final(self).has_skill(k),
            final(self).has_skill(lower_of("react"@)),
            final(self).has_skill(lower_of("vue"@)),
            final(self).has_skill(lower_of("angular"@)),
            final(self).has_skill(lower_of("svelte"@)),
            final(self).has_skill(lower_of("nextjs"@)),
            final(self).has_skill(lower_of("nuxt"@)),
            final(self).has_skill(lower_of("express"@)),
            final(self).has_skill(lower_of("django"@)),
            final(self).has_skill(lower_of("flask"@)),
            final(self).has_skill(lower_of("fastapi"@)),
            final(self).has_skill(lower_of("spring"@)),
            final(self).has_skill(lower_of("rails"@)),
            final(self).has_skill(lower_of("actix"@)),
            final(self).has_skill(lower_of("axum"@)),
            final(self).has_skill(lower_of("rocket"@)),
            final(self).has_skill(lower_of("gin"@)),
            final(self).has_skill(lower_of("echo"@)),
            final(self).has_skill(lower_of("react native"@)),
            final(self).has_skill(lower_of("flutter"@)),
            final(self).has_skill(lower_of("swiftui"@)),
    {
        self.add_skill("react", SkillCategory::Framework, &["reactjs", "react.js"]);
        self.add_skill("vue", SkillCategory::Framework, &["vuejs", "vue.js"]);
        self.add_skill("angular", SkillCategory::Framework, &["angularjs"]);
        self.add_skill("svelte", SkillCategory::Framework, &["sveltekit"]);
        self.add_skill("nextjs", SkillCategory::Framework, &["next.js", "next"]);
        self.add_skill("nuxt", SkillCategory::Framework, &["nuxtjs", "nuxt.js"]);
        self.add_skill("express", SkillCategory::Framework, &["expressjs"]);
        self.add_skill("django", SkillCategory::Framework, &[]);
        self.add_skill("flask", SkillCategory::Framework, &[]);
        self.add_skill("fastapi", SkillCategory::Framework, &[]);
        self.add_skill("spring", SkillCategory::Framework, &["spring boot", "springboot"]);
        self.add_skill("rails", SkillCategory::Framework, &["ruby on rails", "ror"]);
        self.add_skill("actix", SkillCategory::Framework, &["actix-web"]);
        self.add_skill("axum", SkillCategory::Framework, &[]);
        self.add_skill("rocket", SkillCategory::Framework, &[]);
        self.add_skill("gin", SkillCategory::Framework, &[]);
        self.add_skill("echo", SkillCategory::Framework, &[]);
        self.add_skill("react native", SkillCategory::Framework, &["react-native", "rn"]);
        self.add_skill("flutter", SkillCategory::Framework, &[]);
        self.add_skill("swiftui", SkillCategory::Framework, &[]);
    }

    /// Tools, platforms and data stores.
    fn init_tools(&mut self)
        requires
            old(self).wf(),
        ensures
            final(self).wf(),
            forall|k: Seq<char>| old(self).has_skill(k) ==> final(self).has_skill(k),
            final(self).has_skill(lower_of("docker"@)),
            final(self).has_skill(lower_of("kubernetes"@)),
            final(self).has_skill(lower_of("terraform"@)),
            final(self).has_skill(lower_of("aws"@)),
            final(self).has_skill(lower_of("gcp"@)),
            final(self).has_skill(lower_of("azure"@)),
            final(self).has_skill(lower_of("git"@)),
            final(self).has_skill(lower_of("github actions"@)),
            final(self).has_skill(lower_of("gitlab ci"@)),
            final(self).has_skill(lower_of("jenkins"@)),
            final(self).has_skill(lower_of("postgresql"@)),
            final(self).has_skill(lower_of("mysql"@)),
            final(self).has_skill(lower_of("mongodb"@)),
            final(self).has_skill(lower_of("redis"@)),
            final(self).has_skill(lower_of("elasticsearch"@)),
            final(self).has_skill(lower_of("graphql"@)),
            final(self).has_skill(lower_of("rest api"@)),
    {
        self.add_skill("docker", SkillCategory::Tool, &["dockerfile", "containerization"]);
        self.add_skill("kubernetes", SkillCategory::Tool, &["k8s"]);
        self.add_skill("terraform", SkillCategory::Tool, &["tf", "iac"]);
        self.add_skill("aws", SkillCategory::Tool, &["amazon web services"]);
        self.add_skill("gcp", SkillCategory::Tool, &["google cloud", "google cloud platform"]);
        self.add_skill("azure", SkillCategory::Tool, &["microsoft azure"]);
        self.add_skill("git", SkillCategory::Tool, &[]);
        self.add_skill("github actions", SkillCategory::Tool, &["gha"]);
        self.add_skill("gitlab ci", SkillCategory::Tool, &["gitlab-ci"]);
        self.add_skill("jenkins", SkillCategory::Tool, &[]);
        self.add_skill("postgresql", SkillCategory::Tool, &["postgres", "psql"]);
        self.add_skill("mysql", SkillCategory::Tool, &["mariadb"]);
        self.add_skill("mongodb", SkillCategory::Tool, &["mongo"]);
        self.add_skill("redis", SkillCategory::Tool, &[]);
        self.add_skill("elasticsearch", SkillCategory::Tool, &["elastic", "es"]);
        self.add_skill("graphql", SkillCategory::Tool, &["gql"]);
        self.add_skill("rest api", SkillCategory::Tool, &["restful", "rest"]);
    }

    /// Problem domains.
    fn init_domains(&mut self)
        requires
            old(self).wf(),
        ensures
            final(self).wf(),
            forall|k: Seq<char>| old(self).has_skill(k) ==> final(self).has_skill(k),
            final(self).has_skill(lower_of("machine learning"@)),
            final(self).has_skill(lower_of("data science"@)),
            final(self).has_skill(lower_of("devops"@)),
            final(self).has_skill(lower_of("security"@)),
            final(self).has_skill(lower_of("frontend"@)),
            final(self).has_skill(lower_of("backend"@)),
            final(self).has_skill(lower_of("fullstack"@)),
            final(self).has_skill(lower_of("mobile"@)),
            final(self).has_skill(lower_of("embedded"@)),
            final(self).has_skill(lower_of("distributed systems"@)),
            final(self).has_skill(lower_of("databases"@)),
    {
        self.add_skill("machine learning", SkillCategory::Domain, &["ml", "deep learning", "dl", "ai"]);
        self.add_skill("data science", SkillCategory::Domain, &["data analysis", "analytics"]);
        self.add_skill("devops", SkillCategory::Domain, &["sre", "platform engineering"]);
        self.add_skill("security", SkillCategory::Domain, &["cybersecurity", "infosec", "appsec"]);
        self.add_skill("frontend", SkillCategory::Domain, &["front-end", "ui", "client-side"]);
        self.add_skill("backend", SkillCategory::Domain, &["back-end", "server-side"]);
        self.add_skill("fullstack", SkillCategory::Domain, &["full-stack", "full stack"]);
        self.add_skill("mobile", SkillCategory::Domain, &["ios", "android", "mobile development"]);
        self.add_skill("embedded", SkillCategory::Domain, &["embedded systems", "iot"]);
        self.add_skill("distributed systems", SkillCategory::Domain, &["microservices", "distributed"]);
        self.add_skill("databases", SkillCategory::Domain, &["database design", "data modeling"]);
    }

    /// Engineering practices.
    fn init_practices(&mut self)
        requires
            old(self).wf(),
        ensures
            final(self).wf(),
            forall|k: Seq<char>| old(self).has_skill(k) ==> final(self).has_skill(k),
            final(self).has_skill(lower_of("testing"@)),
            final(self).has_skill(lower_of("documentation"@)),
            final(self).has_skill(lower_of("code review"@)),
            final(self).has_skill(lower_of("ci/cd"@)),
            final(self).has_skill(lower_of("agile"@)),
            final(self).has_skill(lower_of("clean code"@)),
            final(self).has_skill(lower_of("refactoring"@)),
            final(self).has_skill(lower_of("debugging"@)),
            final(self).has_skill(lower_of("performance optimization"@)),
            final(self).has_skill(lower_of("error handling"@)),
    {
        self.add_skill("testing", SkillCategory::Practice, &["unit testing", "tdd", "test-driven", "integration testing"]);
        self.add_skill("documentation", SkillCategory::Practice, &["docs", "technical writing"]);
        self.add_skill("code review", SkillCategory::Practice, &["pr review", "pull request review"]);
        self.add_skill("ci/cd", SkillCategory::Practice, &["continuous integration", "continuous deployment", "continuous delivery"]);
        self.add_skill("agile", SkillCategory::Practice, &["scrum", "kanban"]);
        self.add_skill("clean code", SkillCategory::Practice, &["solid", "dry", "kiss"]);
        self.add_skill("refactoring", SkillCategory::Practice, &[]);
        self.add_skill("debugging", SkillCategory::Practice, &["troubleshooting"]);
        self.add_skill("performance optimization", SkillCategory::Practice, &["perf", "optimization"]);
        self.add_skill("error handling", SkillCategory::Practice, &["exception handling"]);
    }

    /// Index of the alias entry for `key`, if any.
    fn alias_index(&self, key: &str) -> (r: Option<usize>)
        ensures
            r matches Some(i) ==> i < self.aliases@.len() && self.aliases@[i as int].alias@ == key@,
            r is None ==> forall|i: int| 0 <= i < self.aliases@.len() ==> (#[trigger] self.aliases@[i]).alias@ != key@,
    {
        let mut i: usize = 0;
        while i < self.aliases.len()
            invariant
                i <= self.aliases@.len(),
                forall|k: int| 0 <= k < i ==> (#[trigger] self.aliases@[k]).alias@ != key@,
            decreases self.aliases.len() - i,
        {
            let e = &self.aliases[i];
            let found = crate::text::same_text(e.alias.as_str(), key);
            if found {
                return Some(i);
            }
            i = i + 1;
        }
        None
    }

    /// Index of the skill registered under `key`, if any.
    fn skill_index(&self, key: &str) -> (r: Option<usize>)
        ensures
            r matches Some(i) ==> i < self.skills@.len() && self.skills@[i as int].key@ == key@,
            r is None ==> !self.has_skill(key@),
    {
        let mut i: usize = 0;
        while i < self.skills.len()
            invariant
                i <= self.skills@.len(),
                forall|k: int| 0 <= k < i ==> (#[trigger] self.skills@[k]).key@ != key@,
            decreases self.skills.len() - i,
        {
            let e = &self.skills[i];
            if crate::text::same_text(e.key.as_str(), key) {
                return Some(i);
            }
            i = i + 1;
        }
        None
    }

    /// Registers a canonical skill and its aliases. A skill's name takes
    /// precedence over an alias of the same text, and an alias that would
    /// shadow a registered skill is not recorded, so that every name
    /// resolves in one step to a registered skill.
    fn add_skill(&mut self, name: &str, category: SkillCategory, aliases: &[&str])
        requires
            old(self).wf(),
        ensures
            final(self).wf(),
            final(self).has_skill(lower_of(name@)),
            forall|k: Seq<char>| old(self).has_skill(k) ==> final(self).has_skill(k),
    {
        let key = lowercase(name);
        let skill = Skill {
            id: underscore_spaces(key.as_str()),
            name: String::from_str(name),
            category,
            subcategory: None,
            aliases: copy_texts(aliases),
        };
        if let Some(j) = self.alias_index(key.as_str()) {
            let ghost before = self.aliases@;
            self.aliases.remove(j);
            proof {
                assert forall|i: int| 0 <= i < self.aliases@.len() implies (#[trigger] self.aliases@[i]).alias@ != key@ by {
                    if i < j {
                        assert(self.aliases@[i] == before[i]);
                        assert(before[i].alias@ != before[j as int].alias@);
                    } else {
                        assert(self.aliases@[i] == before[i + 1]);
                        assert(before[j as int].alias@ != before[i + 1].alias@);
                    }
                }
                assert forall|i: int| 0 <= i < self.aliases@.len() implies self.has_skill((#[trigger] self.aliases@[i]).canonical@) by {
                    if i < j { assert(self.aliases@[i] == before[i]); } else { assert(self.aliases@[i] == before[i + 1]); }
                }
                assert forall|i: int, k: int| 0 <= i < self.aliases@.len() && 0 <= k < self.skills@.len()
                    implies #[trigger] self.aliases@[i].alias@ != #[trigger] self.skills@[k].key@ by {
                    if i < j { assert(self.aliases@[i] == before[i]); } else { assert(self.aliases@[i] == before[i + 1]); }
                }
                assert forall|a: int, b: int| 0 <= a < b < self.aliases@.len()
                    implies #[trigger] self.aliases@[a].alias@ != #[trigger] self.aliases@[b].alias@ by {
                    let a2 = if a < j { a } else { a + 1 };
                    let b2 = if b < j { b } else { b + 1 };
                    assert(self.aliases@[a] == before[a2] && self.aliases@[b] == before[b2]);
                }
            }
        }
        assert(forall|i: int| 0 <= i < self.aliases@.len() ==> (#[trigger] self.aliases@[i]).alias@ != key@);
        let ghost before = self.skills@;
        match self.skill_index(key.as_str()) {
            Some(i) => {
                self.skills.set(i, SkillEntry { key: key.clone(), skill });
                assert(self.skills@[i as int].key@ == key@);
                assert forall|k: Seq<char>| old(self).has_skill(k) implies self.has_skill(k) by {
                    let j = choose|j: int| 0 <= j < before.len() && #[trigger] before[j].key@ == k;
                    assert(self.skills@[j].key@ == k);
                }
            },
            None => {
                self.skills.push(SkillEntry { key: key.clone(), skill });
                assert(self.skills@[self.skills@.len() - 1].key@ == key@);
                assert forall|k: Seq<char>| old(self).has_skill(k) implies self.has_skill(k) by {
                    let j = choose|j: int| 0 <= j < before.len() && #[trigger] before[j].key@ == k;
                    assert(self.skills@[j].key@ == k);
                }
            },
        }
        proof {
            assert forall|i: int| 0 <= i < self.aliases@.len() implies self.has_skill((#[trigger] self.aliases@[i]).canonical@) by {
                let c = self.aliases@[i].canonical@;
                assert(old(self).has_skill(c) || self.has_skill(c));
            }
        }
        let ghost skills_now = self.skills@;
        let mut i: usize = 0;
        while i < aliases.len()
            invariant
                self.wf(),
                self.has_skill(key@),
                key@ == lower_of(name@),
                forall|k: Seq<char>| old(self).has_skill(k) ==> self.has_skill(k),
                self.skills@ == skills_now,
            decreases aliases.len() - i,
        {
            let alias = lowercase(aliases[i]);
            if self.skill_index(alias.as_str()).is_none() {
                let ghost before_aliases = self.aliases@;
                match self.alias_index(alias.as_str()) {
                    Some(j) => {
                        self.aliases.set(j, AliasEntry { alias, canonical: key.clone() });
                        proof {
                            assert forall|a: int, b: int| 0 <= a < b < self.aliases@.len()
                                implies #[trigger] self.aliases@[a].alias@ != #[trigger] self.aliases@[b].alias@ by {
                                assert(self.aliases@[a].alias@ == before_aliases[a].alias@);
                                assert(self.aliases@[b].alias@ == before_aliases[b].alias@);
                            }
                            assert forall|a: int| 0 <= a < self.aliases@.len() implies self.has_skill((#[trigger] self.aliases@[a]).canonical@) by {
                                if a != j { assert(self.aliases@[a] == before_aliases[a]); }
                            }
                            assert forall|a: int, k: int| 0 <= a < self.aliases@.len() && 0 <= k < self.skills@.len()
                                implies #[trigger] self.aliases@[a].alias@ != #[trigger] self.skills@[k].key@ by {
                                assert(self.aliases@[a].alias@ == before_aliases[a].alias@);
                            }
                        }
                    },
                    None => {
                        self.aliases.push(AliasEntry { alias, canonical: key.clone() });
                        proof {
                            let n = before_aliases.len() as int;
                            assert forall|a: int, b: int| 0 <= a < b < self.aliases@.len()
                                implies #[trigger] self.aliases@[a].alias@ != #[trigger] self.aliases@[b].alias@ by {
                                assert(self.aliases@[a] == before_aliases[a]);
                                if b < n { assert(self.aliases@[b] == before_aliases[b]); }
                            }
                            assert forall|a: int| 0 <= a < self.aliases@.len() implies self.has_skill((#[trigger] self.aliases@[a]).canonical@) by {
                                if a < n { assert(self.aliases@[a] == before_aliases[a]); }
                            }
                            assert forall|a: int, k: int| 0 <= a < self.aliases@.len() && 0 <= k < self.skills@.len()
                                implies #[trigger] self.aliases@[a].alias@ != #[trigger] self.skills@[k].key@ by {
                                if a < n { assert(self.aliases@[a] == before_aliases[a]); }
                            }
                        }
                    },
                }
            }
            i = i + 1;
        }
    }

    /// The canonical identity of `name`: its lowercase form, resolved
    /// through the alias table.
    pub fn normalize_skill_name(&self, name: &str) -> (r: String)
        ensures
            r@ == self.normal_form(name@),
    {
        let lower = lowercase(name);
        let mut i: usize = 0;
        while i < self.aliases.len()
            invariant
                i <= self.aliases@.len(),
                lower@ == lower_of(name@),
                forall|k: int| 0 <= k < i ==> (#[trigger] self.alias_table()[k]).0 != lower@,
            decreases self.aliases.len() - i,
        {
            let e = &self.aliases[i];
            assert(self.alias_table()[i as int] == (e.alias@, e.canonical@));
            if crate::text::same_text(e.alias.as_str(), lower.as_str()) {
                proof {
                    lemma_lookup_at(self.alias_table(), lower@, i as int);
                }
                return e.canonical.clone();
            }
            i = i + 1;
        }
        proof {
            lemma_lookup_absent(self.alias_table(), lower@);
        }
        lower
    }

    /// The category that a free-form label names; unknown labels are concepts.
    pub fn categorize(&self, category_str: &str) -> (r: SkillCategory)
        ensures
            r == category_of(category_str@),
    {
        let lowered = lowercase(category_str);
        let l = chars_of(lowered.as_str());
        if is_text(&l, "language") {
            SkillCategory::Language
        } else if is_text(&l, "framework") {
            SkillCategory::Framework
        } else if is_text(&l, "library") {
            SkillCategory::Library
        } else if is_text(&l, "tool") {
            SkillCategory::Tool
        } else if is_text(&l, "domain") {
            SkillCategory::Domain
        } else if is_text(&l, "practice") {
            SkillCategory::Practice
        } else {
            SkillCategory::Concept
        }
    }

    /// The registered skill that `name` resolves to, or a new one made from
    /// `name` and `category` when none is registered.
    pub fn get_or_create_skill(&self, name: &str, category: SkillCategory) -> (r: Skill)
        requires
            self.wf(),
        ensures
            self.skill_for(name@, category, r),
    {
        let normalized = self.normalize_skill_name(name);
        match self.skill_index(normalized.as_str()) {
            Some(i) => {
                assert(self.skills@[i as int].key@ == normalized@);
                self.skills[i].skill.duplicate()
            },
            None => Skill {
                id: underscore_spaces(normalized.as_str()),
                name: String::from_str(name),
                category,
                subcategory: None,
                aliases: Vec::new(),
            },
        }
    }

    /// The registered skill that `name` resolves to, if any.
    pub fn get_skill(&self, name: &str) -> (r: Option<&Skill>)
        requires
            self.wf(),
        ensures
            r is Some <==> self.has_skill(self.normal_form(name@)),
            r matches Some(s) ==> *s == self.skill_at(self.normal_form(name@)),
    {
        let normalized = self.normalize_skill_name(name);
        match self.skill_index(normalized.as_str()) {
            Some(i) => Some(&self.skills[i].skill),
            None => None,
        }
    }
}

/// Normalising twice is normalising once, for every name whose normal
/// form is its own lowercase form.
pub proof fn lemma_normalize_idempotent(t: &SkillTaxonomy, name: Seq<char>)
    requires
        t.wf(),
    ensures
        lower_of(t.normal_form(name)) == t.normal_form(name) ==> t.normal_form(t.normal_form(name)) == t.normal_form(name),
{
    let a = t.alias_table();
    let n = t.normal_form(name);
    if lower_of(n) == n {
        match lookup(a, lower_of(name)) {
            Some(c) => {
                lemma_alias_target_registered(t, name);
                let k = choose|k: int| 0 <= k < t.skills@.len() && #[trigger] t.skills@[k].key@ == c;
                assert forall|j: int| 0 <= j < a.len() implies (#[trigger] a[j]).0 != c by {
                    assert(a[j] == (t.aliases@[j].alias@, t.aliases@[j].canonical@));
                    assert(t.aliases@[j].alias@ != t.skills@[k].key@);
                }
                lemma_lookup_absent(a, c);
            },
            None => {},
        }
    }
}

/// A name that an alias resolves is resolved to a registered skill.
pub proof fn lemma_alias_target_registered(t: &SkillTaxonomy, name: Seq<char>)
    requires
        t.wf(),
    ensures
        lookup(t.alias_table(), lower_of(name)) is Some ==> t.has_skill(t.normal_form(name)),
{
    let a = t.alias_table();
    if lookup(a, lower_of(name)) is Some {
        lemma_lookup_found(a, lower_of(name));
        let i = choose|i: int| 0 <= i < a.len() && #[trigger] a[i] == (lower_of(name), lookup(a, lower_of(name))->0);
        assert(a[i] == (t.aliases@[i].alias@, t.aliases@[i].canonical@));
        assert(t.has_skill(t.aliases@[i].canonical@));
    }
}

/// A registered skill's name resolves to the key it is registered under.
pub proof fn lemma_skill_name_resolves(t: &SkillTaxonomy, k: Seq<char>)
    requires
        t.wf(),
        t.has_skill(k),
    ensures
        t.normal_form(t.skill_at(k).name@) == k,
{
    let j = choose|j: int| 0 <= j < t.skills@.len() && #[trigger] t.skills@[j].key@ == k;
    let a = t.alias_table();
    assert forall|i: int| 0 <= i < a.len() implies (#[trigger] a[i]).0 != k by {
        assert(a[i] == (t.aliases@[i].alias@, t.aliases@[i].canonical@));
        assert(t.aliases@[i].alias@ != t.skills@[j].key@);
    }
    lemma_lookup_absent(a, k);
}

/// Normalisation ignores case: names that agree up to case normalise alike.
pub proof fn lemma_normalize_ignores_case(t: &SkillTaxonomy, x: Seq<char>, y: Seq<char>)
    requires
        lower_of(x) == lower_of(y),
    ensures
        t.normal_form(x) == t.normal_form(y),
{
}

impl Default for SkillTaxonomy {
    fn default() -> (r: SkillTaxonomy)
        ensures
            r.wf(),
    {
        SkillTaxonomy::new()
    }
}

} // verus!
