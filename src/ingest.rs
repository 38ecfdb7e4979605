//! The pure steps of ingestion: which repositories to read, which commits
//! to keep, how a fetched commit is prepared, and the context of a batch.
use vstd::prelude::*;
use crate::languages::{detect_language, language_of};
use crate::models::{
    copy_text_opt, file_views, text_opt, Commit, CommitForAnalysis, CommitStats, FileChange, FileForAnalysis,
    FileView, Repository,
};
use crate::prompts::AnalysisContext;
use crate::text::same_text;

verus! {

/// The repositories to analyse: all of them, or those that are not forks.
pub fn select_repositories(repos: Vec<Repository>, include_forks: bool) -> (r: Vec<Repository>)
    ensures
        r@ == repos@.filter(|x: Repository| include_forks || !x.fork),
{
    let ghost orig = repos@;
    let ghost pred = |x: Repository| include_forks || !x.fork;
    let mut rest = repos;
    let mut out: Vec<Repository> = Vec::new();
    let mut i: usize = 0;
    assert(orig.len() == rest.len());
    assert(orig.subrange(0, orig.len() as int) =~= orig);
    while rest.len() > 0
        invariant
            i <= orig.len(),
            orig.len() <= usize::MAX,
            pred == (|x: Repository| include_forks || !x.fork),
            rest@ == orig.subrange(i as int, orig.len() as int),
            out@ == orig.take(i as int).filter(pred),
        decreases rest.len(),
    {
        let repo = rest.remove(0);
        proof {
            assert(rest@ =~= orig.subrange(i + 1, orig.len() as int));
            assert(orig.take(i + 1).drop_last() =~= orig.take(i as int));
            assert(orig.take(i + 1).last() == repo);
            reveal_with_fuel(Seq::filter, 1);
        }
        if include_forks || !repo.fork {
            out.push(repo);
        }
        i = i + 1;
    }
    assert(orig.take(i as int) =~= orig);
    out
}

/// Whether a fetched commit changed any file.
pub fn has_file_changes(commit: &Commit) -> (r: bool)
    ensures
        r == (commit.files is Some && commit.files->0@.len() > 0),
{
    match &commit.files {
        Some(f) => f.len() > 0,
        None => false,
    }
}

/// What a changed file with a patch becomes for analysis.
pub open spec fn file_for(f: FileChange) -> FileView {
    FileView {
        filename: f.filename@,
        language: language_of(f.filename@),
        diff: text_opt(f.patch)->0,
        additions: f.additions,
        deletions: f.deletions,
    }
}

/// The files of a commit that carry a patch, prepared for analysis.
pub open spec fn files_for(fs: Seq<FileChange>) -> Seq<FileView>
    decreases fs.len(),
{
    if fs.len() == 0 {
        Seq::empty()
    } else {
        files_for(fs.drop_last()) + (if fs.last().patch is Some { seq![file_for(fs.last())] } else { Seq::empty() })
    }
}

/// A fetched commit of `repo` prepared for analysis: its files with a patch,
/// each with the language its name marks; no stats count as zero.
pub fn prepare_commit_for_analysis(repo: &Repository, commit: &Commit) -> (r: CommitForAnalysis)
    ensures
        r@.sha == commit.sha@,
        r@.repository == repo.full_name@,
        r@.message == commit.commit.message@,
        r@.stats == (match commit.stats {
            Some(s) => s,
            None => CommitStats { additions: 0, deletions: 0, total: 0 },
        }),
        r@.committed_at == commit.commit.author.date,
        r@.files == (match commit.files {
            Some(fs) => files_for(fs@),
            None => Seq::empty(),
        }),
{
    let mut files: Vec<FileForAnalysis> = Vec::new();
    match &commit.files {
        Some(fs) => {
            let mut i: usize = 0;
            while i < fs.len()
                invariant
                    i <= fs@.len(),
                    file_views(files@) == files_for(fs@.take(i as int)),
                decreases fs.len() - i,
            {
                let f = &fs[i];
                proof {
                    assert(fs@.take(i + 1).drop_last() =~= fs@.take(i as int));
                    assert(fs@.take(i + 1).last() == *f);
                }
                match &f.patch {
                    Some(p) => {
                        let language = detect_language(f.filename.as_str());
                        let g = FileForAnalysis {
                            filename: f.filename.clone(),
                            language,
                            diff: p.clone(),
                            additions: f.additions,
                            deletions: f.deletions,
                        };
                        assert(text_opt(g.language) == language_of(f.filename@));
                        let ghost prev = files@;
                        files.push(g);
                        assert(file_views(files@) =~= file_views(prev).push(g@));
                        assert(file_views(files@) =~= files_for(fs@.take(i + 1)));
                    },
                    None => {
                        assert(file_views(files@) =~= files_for(fs@.take(i + 1)));
                    },
                }
                i = i + 1;
            }
            assert(fs@.take(i as int) =~= fs@);
        },
        None => {
            assert(file_views(files@) =~= Seq::<FileView>::empty());
        },
    }
    let stats = match &commit.stats {
        Some(s) => CommitStats { additions: s.additions, deletions: s.deletions, total: s.total },
        None => CommitStats::empty(),
    };
    CommitForAnalysis {
        sha: commit.sha.clone(),
        repository: repo.full_name.clone(),
        message: commit.commit.message.clone(),
        stats,
        files_changed: files,
        committed_at: commit.commit.author.date,
    }
}

/// The context of a batch whose first commit comes from `repository`: the
/// description and language of the first fetched repository of that full name.
pub fn analysis_context(repository: &str, fetched: &Vec<(Repository, Commit)>) -> (r: AnalysisContext)
    ensures
        r.repository_name@ == repository@,
        (exists|i: int| 0 <= i < fetched@.len() && (#[trigger] fetched@[i]).0.full_name@ == repository@) ==> {
            let i = choose|i: int| 0 <= i < fetched@.len() && (#[trigger] fetched@[i]).0.full_name@ == repository@
                && forall|j: int| 0 <= j < i ==> (#[trigger] fetched@[j]).0.full_name@ != repository@;
            &&& text_opt(r.repository_description) == text_opt(fetched@[i].0.description)
            &&& text_opt(r.primary_language) == text_opt(fetched@[i].0.language)
        },
        !(exists|i: int| 0 <= i < fetched@.len() && (#[trigger] fetched@[i]).0.full_name@ == repository@) ==> {
            &&& r.repository_description is None
            &&& r.primary_language is None
        },
{
    let mut i: usize = 0;
    while i < fetched.len()
        invariant
            i <= fetched@.len(),
            forall|j: int| 0 <= j < i ==> (#[trigger] fetched@[j]).0.full_name@ != repository@,
        decreases fetched.len() - i,
    {
        let repo = &fetched[i].0;
        if same_text(repo.full_name.as_str(), repository) {
            proof {
                let k = choose|k: int| 0 <= k < fetched@.len() && (#[trigger] fetched@[k]).0.full_name@ == repository@
                    && forall|j: int| 0 <= j < k ==> (#[trigger] fetched@[j]).0.full_name@ != repository@;
                if k < i { assert(fetched@[k].0.full_name@ != repository@); }
                if k > i { assert(fetched@[i as int].0.full_name@ != repository@); }
            }
            return AnalysisContext {
                repository_name: String::from_str(repository),
                repository_description: copy_text_opt(&repo.description),
                primary_language: copy_text_opt(&repo.language),
            };
        }
        i = i + 1;
    }
    AnalysisContext { repository_name: String::from_str(repository), repository_description: None, primary_language: None }
}

/// The `i`-th item of `left` with the `i`-th of `right`, for every index both have.
pub fn pair_by_index<A, B>(left: Vec<A>, right: Vec<B>) -> (r: Vec<(A, B)>)
    ensures
        r@.len() == (if left@.len() < right@.len() { left@.len() } else { right@.len() }),
        forall|i: int| 0 <= i < r@.len() ==> #[trigger] r@[i] == (left@[i], right@[i]),
{
    let ghost l0 = left@;
    let ghost r0 = right@;
    let mut left = left;
    let mut right = right;
    assert(l0.len() == left.len());
    let mut out: Vec<(A, B)> = Vec::new();
    let mut i: usize = 0;
    assert(l0.subrange(0, l0.len() as int) =~= l0);
    assert(r0.subrange(0, r0.len() as int) =~= r0);
    while left.len() > 0 && right.len() > 0
        invariant
            i <= l0.len() && i <= r0.len(),
            l0.len() <= usize::MAX,
            left@ == l0.subrange(i as int, l0.len() as int),
            right@ == r0.subrange(i as int, r0.len() as int),
            out@.len() == i,
            forall|k: int| 0 <= k < i ==> #[trigger] out@[k] == (l0[k], r0[k]),
        decreases left.len(),
    {
        let a = left.remove(0);
        let b = right.remove(0);
        proof {
            assert(left@ =~= l0.subrange(i + 1, l0.len() as int));
            assert(right@ =~= r0.subrange(i + 1, r0.len() as int));
        }
        out.push((a, b));
        i = i + 1;
    }
    out
}

} // verus!
