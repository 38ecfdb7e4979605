//! The analysis request sent to the generation service for one batch.
use vstd::prelude::*;
use crate::batcher::{commit_chars, commit_views};
use crate::models::{text_opt, CommitForAnalysis, CommitView, FileView};
use crate::text::{chars_of, decimal, find, find_from, push_decimal, push_text, string_of};

verus! {

/// Where a batch comes from, for the generation service.
#[derive(Debug, Clone)]
pub struct AnalysisContext {
    pub repository_name: String,
    pub repository_description: Option<String>,
    pub primary_language: Option<String>,
}

/// One batch of commits and its context.
#[derive(Debug, Clone)]
pub struct AnalysisRequest {
    pub commits: Vec<CommitForAnalysis>,
    pub context: AnalysisContext,
}

/// Characters of a diff sent per file.
pub const DIFF_LIMIT: usize = 3000;

/// The first line of a message, without its line ending.
pub open spec fn first_line(m: Seq<char>) -> Seq<char> {
    match find(m, 0, "\n"@) {
        Some(i) => {
            let l = m.take(i);
            if l.len() > 0 && l.last() == '\r' { l.drop_last() } else { l }
        },
        None => m,
    }
}

/// A diff cut to its first three thousand characters, marked when cut.
pub open spec fn capped_diff(d: Seq<char>) -> Seq<char> {
    if d.len() > 3000 { d.take(3000) + "...\n[truncated]"@ } else { d }
}

pub open spec fn file_section(f: FileView) -> Seq<char> {
    "### File: "@ + f.filename + (match f.language {
        Some(l) => " ("@ + l + ")"@,
        None => Seq::empty(),
    }) + "\n```\n"@ + capped_diff(f.diff) + "\n```\n\n"@
}

pub open spec fn files_text(fs: Seq<FileView>) -> Seq<char>
    decreases fs.len(),
{
    if fs.len() == 0 { Seq::empty() } else { files_text(fs.drop_last()) + file_section(fs.last()) }
}

pub open spec fn short_sha(sha: Seq<char>) -> Seq<char> {
    if sha.len() > 8 { sha.take(8) } else { sha }
}

pub open spec fn commit_header(c: CommitView) -> Seq<char> {
    "## Commit: "@ + short_sha(c.sha) + "\n"@ + "Message: "@ + first_line(c.message) + "\n"@
        + "Stats: +"@ + decimal(c.stats.additions as nat) + " -"@ + decimal(c.stats.deletions as nat) + "\n\n"@
}

pub open spec fn commit_section(c: CommitView) -> Seq<char> {
    commit_header(c) + files_text(c.files)
}

pub open spec fn commits_text(cs: Seq<CommitView>) -> Seq<char>
    decreases cs.len(),
{
    if cs.len() == 0 { Seq::empty() } else { commits_text(cs.drop_last()) + commit_section(cs.last()) }
}

/// The prompt for `cs` from the repository named `name`, described by `description`.
pub open spec fn prompt_of(cs: Seq<CommitView>, name: Seq<char>, description: Option<Seq<char>>) -> Seq<char> {
    "Analyze the following "@ + decimal(cs.len()) + " commit(s) from repository '"@ + name + "'"@
        + (match description {
        Some(d) => if d.len() > 0 { " ("@ + d + ")"@ } else { Seq::empty() },
        None => Seq::empty(),
    }) + ":\n\n"@ + commits_text(cs) + "\nProvide your analysis as JSON:\n"@
}

/// Characters of all messages, file names and diffs of `cs`.
pub open spec fn request_chars(cs: Seq<CommitView>) -> nat
    decreases cs.len(),
{
    if cs.len() == 0 { 0 } else { request_chars(cs.drop_last()) + commit_chars(cs.last()) }
}

fn push_file_section(out: &mut Vec<char>, f: &crate::models::FileForAnalysis)
    ensures
        final(out)@ == old(out)@ + file_section(f@),
{
    let ghost start = out@;
    push_text(out, "### File: ");
    push_text(out, f.filename.as_str());
    let ghost mid = out@;
    match &f.language {
        Some(l) => {
            push_text(out, " (");
            push_text(out, l.as_str());
            push_text(out, ")");
            assert(out@ =~= mid + (" ("@ + l@ + ")"@));
        },
        None => {
            assert(out@ =~= mid + Seq::<char>::empty());
        },
    }
    let ghost mid2 = out@;
    push_text(out, "\n```\n");
    let d = chars_of(f.diff.as_str());
    if d.len() > DIFF_LIMIT {
        let mut k: usize = 0;
        let ghost base = out@;
        while k < DIFF_LIMIT
            invariant
                k <= DIFF_LIMIT,
                DIFF_LIMIT < d@.len(),
                out@ == base + d@.take(k as int),
            decreases DIFF_LIMIT - k,
        {
            out.push(d[k]);
            k = k + 1;
            assert(out@ =~= base + d@.take(k as int));
        }
        push_text(out, "...\n[truncated]");
    } else {
        push_text(out, f.diff.as_str());
    }
    push_text(out, "\n```\n\n");
    assert(out@ =~= start + file_section(f@));
}

fn push_first_line(out: &mut Vec<char>, m: &str)
    ensures
        final(out)@ == old(out)@ + first_line(m@),
{
    let cs = chars_of(m);
    let nl = chars_of("\n");
    proof {
        reveal_strlit("\n");
    }
    let end: usize = match find_from(&cs, 0, &nl) {
        Some(i) => {
            if i > 0 && cs[i - 1] == '\r' { i - 1 } else { i }
        },
        None => cs.len(),
    };
    let ghost base = out@;
    let mut k: usize = 0;
    assert(end <= cs@.len()) by {
        if find(cs@, 0, nl@) is Some {
            assert(crate::text::occurs_at(cs@, find(cs@, 0, nl@)->0, nl@));
        }
    }
    while k < end
        invariant
            k <= end <= cs@.len(),
            out@ == base + cs@.take(k as int),
        decreases end - k,
    {
        out.push(cs[k]);
        k = k + 1;
        assert(out@ =~= base + cs@.take(k as int));
    }
    proof {
        match find(cs@, 0, nl@) {
            Some(i) => {
                let l = cs@.take(i);
                if l.len() > 0 && l.last() == '\r' {
                    assert(cs@.take(end as int) =~= l.drop_last());
                } else {
                    assert(cs@.take(end as int) =~= l);
                }
            },
            None => {
                assert(cs@.take(end as int) =~= cs@);
            },
        }
    }
}

fn push_short_sha(out: &mut Vec<char>, sha: &str)
    ensures
        final(out)@ == old(out)@ + short_sha(sha@),
{
    let cs = chars_of(sha);
    let n: usize = if cs.len() > 8 { 8 } else { cs.len() };
    let mut k: usize = 0;
    let ghost b0 = out@;
    while k < n
        invariant
            k <= n <= cs@.len(),
            out@ == b0 + cs@.take(k as int),
        decreases n - k,
    {
        out.push(cs[k]);
        k = k + 1;
        assert(out@ =~= b0 + cs@.take(k as int));
    }
    assert(cs@.take(n as int) =~= short_sha(sha@));
}

fn push_commit_header(out: &mut Vec<char>, c: &CommitForAnalysis)
    ensures
        final(out)@ == old(out)@ + commit_header(c@),
{
    let ghost b = out@;
    push_text(out, "## Commit: ");
    push_short_sha(out, c.sha.as_str());
    push_text(out, "\n");
    push_text(out, "Message: ");
    push_first_line(out, c.message.as_str());
    push_text(out, "\n");
    push_text(out, "Stats: +");
    push_decimal(out, c.stats.additions as u64);
    push_text(out, " -");
    push_decimal(out, c.stats.deletions as u64);
    push_text(out, "\n\n");
    assert(out@ =~= b + commit_header(c@));
}

fn push_commit_section(out: &mut Vec<char>, c: &CommitForAnalysis)
    ensures
        final(out)@ == old(out)@ + commit_section(c@),
{
    let ghost before = out@;
    push_commit_header(out, c);
    let ghost fs = c@.files;
    let ghost fstart = out@;
    let mut j: usize = 0;
    assert(files_text(fs.take(0)) =~= Seq::<char>::empty());
    assert(fstart + Seq::<char>::empty() =~= fstart);
    while j < c.files_changed.len()
        invariant
            fs == crate::models::file_views(c.files_changed@),
            j <= c.files_changed@.len(),
            out@ == fstart + files_text(fs.take(j as int)),
        decreases c.files_changed.len() - j,
    {
        proof {
            assert(fs.take(j + 1).drop_last() =~= fs.take(j as int));
            assert(fs.take(j + 1).last() == c.files_changed@[j as int]@);
        }
        push_file_section(out, &c.files_changed[j]);
        j = j + 1;
    }
    assert(fs.take(j as int) =~= fs);
    assert(out@ =~= before + commit_section(c@));
}

impl AnalysisRequest {
    pub fn new(commits: Vec<CommitForAnalysis>, context: AnalysisContext) -> (r: AnalysisRequest)
        ensures
            r.commits == commits,
            r.context == context,
    {
        AnalysisRequest { commits, context }
    }

    /// The prompt: a header naming the repository, then each commit's short
    /// sha, first message line, line counts and file diffs, each diff capped.
    pub fn to_prompt(&self) -> (r: String)
        ensures
            r@ == prompt_of(commit_views(self.commits@), self.context.repository_name@, text_opt(self.context.repository_description)),
    {
        let ghost cs = commit_views(self.commits@);
        let mut out: Vec<char> = Vec::new();
        push_text(&mut out, "Analyze the following ");
        push_decimal(&mut out, self.commits.len() as u64);
        push_text(&mut out, " commit(s) from repository '");
        push_text(&mut out, self.context.repository_name.as_str());
        push_text(&mut out, "'");
        let ghost head = out@;
        match &self.context.repository_description {
            Some(desc) => {
                if desc.as_str().unicode_len() > 0 {
                    push_text(&mut out, " (");
                    push_text(&mut out, desc.as_str());
                    push_text(&mut out, ")");
                    assert(out@ =~= head + (" ("@ + desc@ + ")"@));
                } else {
                    assert(out@ =~= head + Seq::<char>::empty());
                }
            },
            None => {
                assert(out@ =~= head + Seq::<char>::empty());
            },
        }
        push_text(&mut out, ":\n\n");
        let ghost intro = out@;
        let mut i: usize = 0;
        assert(commits_text(cs.take(0)) =~= Seq::<char>::empty());
        assert(intro + Seq::<char>::empty() =~= intro);
        while i < self.commits.len()
            invariant
                cs == commit_views(self.commits@),
                i <= self.commits@.len(),
                out@ == intro + commits_text(cs.take(i as int)),
            decreases self.commits.len() - i,
        {
            let c = &self.commits[i];
            let ghost before = out@;
            proof {
                assert(cs.take(i + 1).drop_last() =~= cs.take(i as int));
                assert(cs.take(i + 1).last() == c@);
            }
            push_commit_section(&mut out, c);
            assert(out@ =~= before + commit_section(c@));
            i = i + 1;
        }
        assert(cs.take(i as int) =~= cs);
        push_text(&mut out, "\nProvide your analysis as JSON:\n");
        assert(out@ =~= prompt_of(cs, self.context.repository_name@, text_opt(self.context.repository_description)));
        string_of(&out)
    }

    /// Estimated tokens of the request's commit text: four characters a token.
    pub fn estimate_tokens(&self) -> (r: usize)
        requires
            request_chars(commit_views(self.commits@)) <= usize::MAX,
        ensures
            r == request_chars(commit_views(self.commits@)) / 4,
    {
        let ghost cs = commit_views(self.commits@);
        let batcher = crate::batcher::CommitBatcher::new(0);
        let mut total: usize = 0;
        let mut i: usize = 0;
        while i < self.commits.len()
            invariant
                cs == commit_views(self.commits@),
                i <= self.commits@.len(),
                request_chars(cs) <= usize::MAX,
                total == request_chars(cs.take(i as int)),
            decreases self.commits.len() - i,
        {
            proof {
                assert(cs.take(i + 1).drop_last() =~= cs.take(i as int));
                assert(cs.take(i + 1).last() == self.commits@[i as int]@);
                lemma_request_chars_prefix(cs, i + 1);
            }
            let c = batcher.commit_chars_of(&self.commits[i]);
            total = total + c;
            i = i + 1;
        }
        assert(cs.take(i as int) =~= cs);
        total / 4
    }
}

proof fn lemma_request_chars_prefix(cs: Seq<CommitView>, k: int)
    requires
        0 <= k <= cs.len(),
    ensures
        request_chars(cs.take(k)) <= request_chars(cs),
    decreases cs.len(),
{
    if k < cs.len() {
        assert(cs.drop_last().take(k) =~= cs.take(k));
        lemma_request_chars_prefix(cs.drop_last(), k);
    } else {
        assert(cs.take(k) =~= cs);
    }
}

} // verus!
