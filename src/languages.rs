//! Language of a file, inferred from its name.
use vstd::prelude::*;
use crate::text::{chars_of, ends_with, lower_of, lowercase, has_prefix, has_suffix, is_text, starts_with, string_of, lookup};

verus! {

/// Extensions, in lowercase, and the language each one marks.
pub open spec fn extension_table() -> Seq<(Seq<char>, Seq<char>)> {
    seq![
        ("rs"@, "Rust"@),
        ("py"@, "Python"@),
        ("pyw"@, "Python"@),
        ("pyx"@, "Python"@),
        ("js"@, "JavaScript"@),
        ("mjs"@, "JavaScript"@),
        ("cjs"@, "JavaScript"@),
        ("ts"@, "TypeScript"@),
        ("tsx"@, "TypeScript"@),
        ("jsx"@, "JavaScript"@),
        ("go"@, "Go"@),
        ("java"@, "Java"@),
        ("kt"@, "Kotlin"@),
        ("kts"@, "Kotlin"@),
        ("scala"@, "Scala"@),
        ("clj"@, "Clojure"@),
        ("groovy"@, "Groovy"@),
        ("c"@, "C"@),
        ("h"@, "C"@),
        ("cpp"@, "C++"@),
        ("cc"@, "C++"@),
        ("cxx"@, "C++"@),
        ("hpp"@, "C++"@),
        ("hxx"@, "C++"@),
        ("cs"@, "C#"@),
        ("swift"@, "Swift"@),
        ("m"@, "Objective-C"@),
        ("mm"@, "Objective-C++"@),
        ("rb"@, "Ruby"@),
        ("rake"@, "Ruby"@),
        ("gemspec"@, "Ruby"@),
        ("php"@, "PHP"@),
        ("ex"@, "Elixir"@),
        ("exs"@, "Elixir"@),
        ("erl"@, "Erlang"@),
        ("hs"@, "Haskell"@),
        ("lhs"@, "Haskell"@),
        ("ml"@, "OCaml"@),
        ("mli"@, "OCaml"@),
        ("fs"@, "F#"@),
        ("fsx"@, "F#"@),
        ("sh"@, "Shell"@),
        ("bash"@, "Shell"@),
        ("zsh"@, "Shell"@),
        ("fish"@, "Shell"@),
        ("ps1"@, "PowerShell"@),
        ("psm1"@, "PowerShell"@),
        ("html"@, "HTML"@),
        ("htm"@, "HTML"@),
        ("css"@, "CSS"@),
        ("scss"@, "SCSS"@),
        ("sass"@, "Sass"@),
        ("less"@, "Less"@),
        ("vue"@, "Vue"@),
        ("svelte"@, "Svelte"@),
        ("sql"@, "SQL"@),
        ("graphql"@, "GraphQL"@),
        ("gql"@, "GraphQL"@),
        ("json"@, "JSON"@),
        ("yaml"@, "YAML"@),
        ("yml"@, "YAML"@),
        ("toml"@, "TOML"@),
        ("xml"@, "XML"@),
        ("ini"@, "INI"@),
        ("md"@, "Markdown"@),
        ("markdown"@, "Markdown"@),
        ("rst"@, "reStructuredText"@),
        ("txt"@, "Text"@),
        ("lua"@, "Lua"@),
        ("r"@, "R"@),
        ("rmd"@, "R"@),
        ("pl"@, "Perl"@),
        ("pm"@, "Perl"@),
        ("dart"@, "Dart"@),
        ("zig"@, "Zig"@),
        ("nim"@, "Nim"@),
        ("jl"@, "Julia"@),
        ("v"@, "V"@),
        ("sol"@, "Solidity"@),
        ("move"@, "Move"@),
        ("proto"@, "Protocol Buffers"@),
        ("tf"@, "Terraform"@),
        ("tfvars"@, "Terraform"@),
    ]
}

fn extension_table_exec() -> (r: Vec<(&'static str, &'static str)>)
    ensures
        r@.len() == extension_table().len(),
        forall|i: int| 0 <= i < r@.len() ==> (#[trigger] r@[i]).0@ == extension_table()[i].0
            && r@[i].1@ == extension_table()[i].1,
{
    let r = vec![
        ("rs", "Rust"),
        ("py", "Python"),
        ("pyw", "Python"),
        ("pyx", "Python"),
        ("js", "JavaScript"),
        ("mjs", "JavaScript"),
        ("cjs", "JavaScript"),
        ("ts", "TypeScript"),
        ("tsx", "TypeScript"),
        ("jsx", "JavaScript"),
        ("go", "Go"),
        ("java", "Java"),
        ("kt", "Kotlin"),
        ("kts", "Kotlin"),
        ("scala", "Scala"),
        ("clj", "Clojure"),
        ("groovy", "Groovy"),
        ("c", "C"),
        ("h", "C"),
        ("cpp", "C++"),
        ("cc", "C++"),
        ("cxx", "C++"),
        ("hpp", "C++"),
        ("hxx", "C++"),
        ("cs", "C#"),
        ("swift", "Swift"),
        ("m", "Objective-C"),
        ("mm", "Objective-C++"),
        ("rb", "Ruby"),
        ("rake", "Ruby"),
        ("gemspec", "Ruby"),
        ("php", "PHP"),
        ("ex", "Elixir"),
        ("exs", "Elixir"),
        ("erl", "Erlang"),
        ("hs", "Haskell"),
        ("lhs", "Haskell"),
        ("ml", "OCaml"),
        ("mli", "OCaml"),
        ("fs", "F#"),
        ("fsx", "F#"),
        ("sh", "Shell"),
        ("bash", "Shell"),
        ("zsh", "Shell"),
        ("fish", "Shell"),
        ("ps1", "PowerShell"),
        ("psm1", "PowerShell"),
        ("html", "HTML"),
        ("htm", "HTML"),
        ("css", "CSS"),
        ("scss", "SCSS"),
        ("sass", "Sass"),
        ("less", "Less"),
        ("vue", "Vue"),
        ("svelte", "Svelte"),
        ("sql", "SQL"),
        ("graphql", "GraphQL"),
        ("gql", "GraphQL"),
        ("json", "JSON"),
        ("yaml", "YAML"),
        ("yml", "YAML"),
        ("toml", "TOML"),
        ("xml", "XML"),
        ("ini", "INI"),
        ("md", "Markdown"),
        ("markdown", "Markdown"),
        ("rst", "reStructuredText"),
        ("txt", "Text"),
        ("lua", "Lua"),
        ("r", "R"),
        ("rmd", "R"),
        ("pl", "Perl"),
        ("pm", "Perl"),
        ("dart", "Dart"),
        ("zig", "Zig"),
        ("nim", "Nim"),
        ("jl", "Julia"),
        ("v", "V"),
        ("sol", "Solidity"),
        ("move", "Move"),
        ("proto", "Protocol Buffers"),
        ("tf", "Terraform"),
        ("tfvars", "Terraform"),
    ];
    assert(r@.len() == extension_table().len());
    r
}

/// What follows the last `.` of `s`; all of `s` when it holds none.
pub open spec fn last_segment(s: Seq<char>) -> Seq<char>
    decreases s.len(),
{
    if s.len() == 0 {
        s
    } else if s.last() == '.' {
        Seq::empty()
    } else {
        last_segment(s.drop_last()).push(s.last())
    }
}

/// The language a file name marks.
pub open spec fn language_of(filename: Seq<char>) -> Option<Seq<char>> {
    let lower = lower_of(filename);
    if lower == "dockerfile"@ || has_prefix(lower, "dockerfile."@) {
        Some("Dockerfile"@)
    } else if lower == "makefile"@ || lower == "gnumakefile"@ {
        Some("Makefile"@)
    } else if lower == "cmakelists.txt"@ {
        Some("CMake"@)
    } else if has_suffix(lower, ".d.ts"@) {
        Some("TypeScript"@)
    } else {
        lookup(extension_table(), lower_of(last_segment(filename)))
    }
}

proof fn lemma_last_segment_suffix(s: Seq<char>, i: int)
    requires
        0 <= i <= s.len(),
        i == 0 || s[i - 1] == '.',
        forall|k: int| i <= k < s.len() ==> s[k] != '.',
    ensures
        last_segment(s) == s.subrange(i, s.len() as int),
    decreases s.len(),
{
    if s.len() == i {
        if i > 0 {
            assert(s.last() == '.');
        }
        assert(s.subrange(i, s.len() as int) =~= Seq::<char>::empty());
    } else {
        lemma_last_segment_suffix(s.drop_last(), i);
        assert(s.subrange(i, s.len() as int) =~= s.drop_last().subrange(i, s.len() - 1).push(s.last()));
    }
}

/// What follows the last `.` of `s`.
pub fn extension(s: &Vec<char>) -> (r: Vec<char>)
    ensures
        r@ == last_segment(s@),
{
    let mut start: usize = s.len();
    while start > 0 && s[start - 1] != '.'
        invariant
            start <= s@.len(),
            forall|k: int| start <= k < s@.len() ==> s@[k] != '.',
        decreases start,
    {
        start = start - 1;
    }
    let mut ext: Vec<char> = Vec::new();
    let mut i: usize = start;
    while i < s.len()
        invariant
            start <= i <= s@.len(),
            ext@ == s@.subrange(start as int, i as int),
        decreases s.len() - i,
    {
        ext.push(s[i]);
        i = i + 1;
        assert(ext@ =~= s@.subrange(start as int, i as int));
    }
    proof {
        lemma_last_segment_suffix(s@, start as int);
    }
    ext
}

/// The language that `filename` marks: special build files first, then its extension.
pub fn detect_language(filename: &str) -> (r: Option<String>)
    ensures
        r matches Some(l) ==> language_of(filename@) == Some(l@),
        r is None ==> language_of(filename@) is None,
{
    let lowered = lowercase(filename);
    let lower = chars_of(lowered.as_str());
    if is_text(&lower, "dockerfile") || starts_with(&lower, "dockerfile.") {
        return Some(String::from_str("Dockerfile"));
    }
    if is_text(&lower, "makefile") || is_text(&lower, "gnumakefile") {
        return Some(String::from_str("Makefile"));
    }
    if is_text(&lower, "cmakelists.txt") {
        return Some(String::from_str("CMake"));
    }
    if ends_with(&lower, ".d.ts") {
        return Some(String::from_str("TypeScript"));
    }
    let raw_ext = extension(&chars_of(filename));
    let ext_text = lowercase(string_of(&raw_ext).as_str());
    let ext = chars_of(ext_text.as_str());
    let table = extension_table_exec();
    let mut j: usize = 0;
    assert(extension_table().subrange(0, table@.len() as int) =~= extension_table());
    assert(language_of(filename@) == lookup(extension_table(), ext@));
    while j < table.len()
        invariant
            table@.len() == extension_table().len(),
            forall|i: int| 0 <= i < table@.len() ==> (#[trigger] table@[i]).0@ == extension_table()[i].0
                && table@[i].1@ == extension_table()[i].1,
            j <= table@.len(),
            language_of(filename@) == lookup(extension_table(), ext@),
            lookup(extension_table(), ext@)
                == lookup(extension_table().subrange(j as int, table@.len() as int), ext@),
        decreases table.len() - j,
    {
        proof {
            let t = extension_table().subrange(j as int, table@.len() as int);
            assert(t.drop_first() =~= extension_table().subrange(j + 1, table@.len() as int));
        }
        if is_text(&ext, table[j].0) {
            assert(extension_table().subrange(j as int, table@.len() as int)[0] == extension_table()[j as int]);
            return Some(String::from_str(table[j].1));
        }
        j = j + 1;
    }
    None
}

} // verus!
