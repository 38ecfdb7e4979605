//! Packing prepared commits into batches that fit a generation context window.
use vstd::prelude::*;
use crate::languages::{extension, last_segment};
use crate::models::{file_views, CommitForAnalysis, CommitView, FileForAnalysis, FileView};
use crate::text::{chars_of, lower_of, lowercase, is_text, string_of};

verus! {

/// Tokens held back from the context window for instructions and the reply.
pub const RESERVED_TOKENS: usize = 4000;

/// Appended to a diff that was cut short.
pub open spec fn marker() -> Seq<char> {
    "\n... [truncated]"@
}

pub open spec fn file_chars(f: FileView) -> nat {
    f.filename.len() + f.diff.len()
}

/// Characters of all file names and diffs in `fs`.
pub open spec fn files_chars(fs: Seq<FileView>) -> nat
    decreases fs.len(),
{
    if fs.len() == 0 {
        0
    } else {
        files_chars(fs.drop_last()) + file_chars(fs.last())
    }
}

/// Characters of a commit's message, file names and diffs.
pub open spec fn commit_chars(c: CommitView) -> nat {
    c.message.len() + files_chars(c.files)
}

/// Estimated tokens of a commit: four characters a token, plus formatting overhead.
pub open spec fn commit_tokens(c: CommitView) -> nat {
    commit_chars(c) / 4 + 100
}

/// Estimated tokens of a batch.
pub open spec fn batch_tokens(b: Seq<CommitView>) -> nat
    decreases b.len(),
{
    if b.len() == 0 {
        0
    } else {
        batch_tokens(b.drop_last()) + commit_tokens(b.last())
    }
}

/// How useful a file is to the analysis, from its extension.
pub open spec fn priority_of(filename: Seq<char>) -> u32 {
    let e = lower_of(last_segment(filename));
    if e == "rs"@ || e == "py"@ || e == "ts"@ || e == "js"@ || e == "go"@ || e == "java"@
        || e == "cpp"@ || e == "c"@ || e == "rb"@ || e == "swift"@ || e == "kt"@ {
        100
    } else if e == "tsx"@ || e == "jsx"@ || e == "vue"@ || e == "svelte"@ {
        90
    } else if e == "sql"@ || e == "graphql"@ {
        80
    } else if e == "yaml"@ || e == "yml"@ || e == "toml"@ || e == "json"@ {
        50
    } else if e == "md"@ || e == "txt"@ || e == "rst"@ {
        30
    } else if e == "lock"@ {
        0
    } else {
        40
    }
}

/// The priorities, highest first.
pub open spec fn priority_classes() -> Seq<u32> {
    seq![100u32, 90u32, 80u32, 50u32, 40u32, 30u32, 0u32]
}

pub open spec fn with_priority(fs: Seq<FileView>, p: u32) -> Seq<FileView> {
    fs.filter(|f: FileView| priority_of(f.filename) == p)
}

/// The files of the first `n` priority classes, class by class, each in input order.
pub open spec fn ordered_prefix(fs: Seq<FileView>, n: nat) -> Seq<FileView>
    decreases n,
{
    if n == 0 {
        Seq::empty()
    } else {
        ordered_prefix(fs, (n - 1) as nat) + with_priority(fs, priority_classes()[n - 1])
    }
}

/// `fs` stably ordered by priority, highest first.
pub open spec fn by_priority(fs: Seq<FileView>) -> Seq<FileView> {
    ordered_prefix(fs, 7)
}

/// `f` with its diff cut to `keep` characters and marked as cut.
pub open spec fn cut_file(f: FileView, keep: nat) -> FileView {
    FileView {
        filename: f.filename,
        language: f.language,
        diff: f.diff.take(keep as int) + marker(),
        additions: f.additions,
        deletions: f.deletions,
    }
}

/// The files admitted, in order, into a pool of `pool` characters of which
/// `used` are already taken: each costs its name plus fifty characters and
/// its diff, a diff that does not fit is cut to the room left, and the walk
/// stops at the first file for which no room is left.
pub open spec fn fit_files(fs: Seq<FileView>, pool: int, used: int) -> Seq<FileView>
    decreases fs.len(),
{
    if fs.len() == 0 {
        Seq::empty()
    } else {
        let f = fs[0];
        let room = pool - (used + f.filename.len() + 50);
        if room <= 0 {
            Seq::empty()
        } else {
            let g = if f.diff.len() > room { cut_file(f, room as nat) } else { f };
            seq![g] + fit_files(fs.drop_first(), pool, used + f.filename.len() + 50 + g.diff.len())
        }
    }
}

/// Characters available to the files of `c` when it must fit `max_tokens` tokens.
pub open spec fn diff_pool(c: CommitView, max_tokens: nat) -> int {
    let p = max_tokens * 4 - (c.message.len() + 200);
    if p > 0 { p } else { 0 }
}

/// `c` with its files ordered by priority and cut down to fit `max_tokens`.
pub open spec fn truncated_commit(c: CommitView, max_tokens: nat) -> CommitView {
    CommitView {
        sha: c.sha,
        repository: c.repository,
        message: c.message,
        stats: c.stats,
        files: fit_files(by_priority(c.files), diff_pool(c, max_tokens), 0),
        committed_at: c.committed_at,
    }
}

/// What a commit becomes in the batches: itself, or cut down when it alone exceeds the budget.
pub open spec fn emitted(c: CommitView, budget: nat) -> CommitView {
    if commit_tokens(c) > budget { truncated_commit(c, budget) } else { c }
}

pub struct PackState {
    pub done: Seq<Seq<CommitView>>,
    pub current: Seq<CommitView>,
    pub tokens: nat,
}

pub open spec fn pack_start() -> PackState {
    PackState { done: Seq::empty(), current: Seq::empty(), tokens: 0 }
}

/// One step of the greedy packing.
pub open spec fn pack_step(budget: nat, st: PackState, c: CommitView) -> PackState {
    let t = commit_tokens(c);
    let closed = if st.current.len() > 0 { st.done.push(st.current) } else { st.done };
    if t > budget {
        PackState { done: closed.push(seq![truncated_commit(c, budget)]), current: Seq::empty(), tokens: 0 }
    } else if st.tokens + t > budget {
        PackState { done: closed, current: seq![c], tokens: t }
    } else {
        PackState { done: st.done, current: st.current.push(c), tokens: st.tokens + t }
    }
}

pub open spec fn pack_state(cs: Seq<CommitView>, budget: nat) -> PackState {
    cs.fold_left(pack_start(), |st: PackState, c: CommitView| pack_step(budget, st, c))
}

/// The batches that greedy packing of `cs` under `budget` yields.
pub open spec fn packed(cs: Seq<CommitView>, budget: nat) -> Seq<Seq<CommitView>> {
    let st = pack_state(cs, budget);
    if st.current.len() > 0 { st.done.push(st.current) } else { st.done }
}

pub open spec fn commit_views(cs: Seq<CommitForAnalysis>) -> Seq<CommitView> {
    cs.map_values(|c: CommitForAnalysis| c@)
}

pub open spec fn batch_views(bs: Seq<Vec<CommitForAnalysis>>) -> Seq<Seq<CommitView>> {
    bs.map_values(|b: Vec<CommitForAnalysis>| commit_views(b@))
}

proof fn lemma_with_priority_step(fs: Seq<FileView>, j: int, p: u32)
    requires
        0 <= j < fs.len(),
    ensures
        with_priority(fs.take(j + 1), p) == (if priority_of(fs[j].filename) == p {
            with_priority(fs.take(j), p).push(fs[j])
        } else {
            with_priority(fs.take(j), p)
        }),
{
    assert(fs.take(j + 1).drop_last() =~= fs.take(j));
    assert(fs.take(j + 1).last() == fs[j]);
    reveal_with_fuel(Seq::filter, 1);
}

proof fn lemma_files_chars_prefix(fs: Seq<FileView>, k: int)
    requires
        0 <= k <= fs.len(),
    ensures
        files_chars(fs.take(k)) <= files_chars(fs),
    decreases fs.len(),
{
    if k < fs.len() {
        assert(fs.drop_last().take(k) =~= fs.take(k));
        lemma_files_chars_prefix(fs.drop_last(), k);
    } else {
        assert(fs.take(k) =~= fs);
    }
}

/// Each step keeps the packing state's laws: closed batches are non-empty,
/// any closed batch of several commits fits the budget, the open batch fits
/// it, and the batches read in order are the emitted commits in order.
proof fn lemma_pack_state(cs: Seq<CommitView>, budget: nat)
    ensures
        pack_state(cs, budget).tokens == batch_tokens(pack_state(cs, budget).current),
        pack_state(cs, budget).tokens <= budget,
        forall|k: int| 0 <= k < pack_state(cs, budget).done.len()
            ==> (#[trigger] pack_state(cs, budget).done[k]).len() > 0,
        forall|k: int| 0 <= k < pack_state(cs, budget).done.len()
            && (#[trigger] pack_state(cs, budget).done[k]).len() > 1
            ==> batch_tokens(pack_state(cs, budget).done[k]) <= budget,
        pack_state(cs, budget).done.flatten_alt() + pack_state(cs, budget).current
            == cs.map_values(|c: CommitView| emitted(c, budget)),
    decreases cs.len(),
{
    let f = |st: PackState, c: CommitView| pack_step(budget, st, c);
    if cs.len() == 0 {
        assert(pack_state(cs, budget) == pack_start());
        assert(Seq::<Seq<CommitView>>::empty().flatten_alt() =~= Seq::<CommitView>::empty());
        assert(cs.map_values(|c: CommitView| emitted(c, budget)) =~= Seq::<CommitView>::empty());
    } else {
        let prev = cs.drop_last();
        let c = cs.last();
        lemma_pack_state(prev, budget);
        let st = pack_state(prev, budget);
        assert(pack_state(cs, budget) == pack_step(budget, st, c));
        let nx = pack_step(budget, st, c);
        let t = commit_tokens(c);
        let closed = if st.current.len() > 0 { st.done.push(st.current) } else { st.done };
        assert(cs.map_values(|c: CommitView| emitted(c, budget))
            =~= prev.map_values(|c: CommitView| emitted(c, budget)).push(emitted(c, budget)));
        if st.current.len() > 0 {
            assert(closed.drop_last() =~= st.done);
            assert(closed.flatten_alt() == st.done.flatten_alt() + st.current);
        }
        assert(closed.flatten_alt() == st.done.flatten_alt() + st.current) by {
            if st.current.len() == 0 {
                assert(st.done.flatten_alt() + st.current =~= st.done.flatten_alt());
            }
        }
        if t > budget {
            let single = seq![truncated_commit(c, budget)];
            assert(nx.done.drop_last() =~= closed);
            assert(nx.done.flatten_alt() == closed.flatten_alt() + single);
            assert(nx.done.flatten_alt() + nx.current =~= st.done.flatten_alt() + st.current + single);
            assert(batch_tokens(Seq::<CommitView>::empty()) == 0);
        } else if st.tokens + t > budget {
            assert(nx.done.flatten_alt() + nx.current =~= st.done.flatten_alt() + st.current + seq![c]);
            assert(seq![c].drop_last() =~= Seq::<CommitView>::empty());
            assert(seq![c].last() == c);
            assert(batch_tokens(Seq::<CommitView>::empty()) == 0);
            assert(batch_tokens(seq![c]) == t);
        } else {
            assert(nx.done.flatten_alt() + nx.current =~= st.done.flatten_alt() + st.current.push(c));
            assert(st.current.push(c).drop_last() =~= st.current);
            assert(batch_tokens(st.current.push(c)) == st.tokens + t);
        }
    }
}

/// The laws of greedy packing: every batch is non-empty, any batch of several
/// commits fits the budget, and the batches read in order are the input
/// commits in order, each oversized one cut down in its place.
pub proof fn lemma_packing_laws(cs: Seq<CommitView>, budget: nat)
    ensures
        forall|k: int| 0 <= k < packed(cs, budget).len() ==> (#[trigger] packed(cs, budget)[k]).len() > 0,
        forall|k: int| 0 <= k < packed(cs, budget).len() && (#[trigger] packed(cs, budget)[k]).len() > 1
            ==> batch_tokens(packed(cs, budget)[k]) <= budget,
        packed(cs, budget).flatten_alt() == cs.map_values(|c: CommitView| emitted(c, budget)),
{
    lemma_pack_state(cs, budget);
    let st = pack_state(cs, budget);
    if st.current.len() > 0 {
        assert(packed(cs, budget).drop_last() =~= st.done);
    } else {
        assert(st.done.flatten_alt() + st.current =~= st.done.flatten_alt());
    }
}

/// A kept file is the input file whole, when its diff fit the pool, or the
/// input file with its diff cut to at most the pool and then marked as cut.
pub open spec fn kept_within(f: FileView, g: FileView, pool: int) -> bool {
    (g == f && f.diff.len() <= pool) || exists|m: nat|
        m < f.diff.len() && m <= pool && g == #[trigger] cut_file(f, m)
}

proof fn lemma_fit_files_within(fs: Seq<FileView>, pool: int, used: int)
    requires
        used >= 0,
    ensures
        fit_files(fs, pool, used).len() <= fs.len(),
        forall|k: int| 0 <= k < fit_files(fs, pool, used).len()
            ==> kept_within(fs[k], #[trigger] fit_files(fs, pool, used)[k], pool),
    decreases fs.len(),
{
    if fs.len() > 0 {
        let f = fs[0];
        let room = pool - (used + f.filename.len() + 50);
        if room > 0 {
            let g = if f.diff.len() > room { cut_file(f, room as nat) } else { f };
            let next = used + f.filename.len() + 50 + g.diff.len();
            lemma_fit_files_within(fs.drop_first(), pool, next);
            let out = fit_files(fs, pool, used);
            assert forall|k: int| 0 <= k < out.len() implies kept_within(fs[k], #[trigger] out[k], pool) by {
                if k == 0 {
                    if f.diff.len() > room {
                        assert(g == cut_file(f, room as nat));
                    }
                } else {
                    assert(out[k] == fit_files(fs.drop_first(), pool, next)[k - 1]);
                    assert(fs[k] == fs.drop_first()[k - 1]);
                }
            }
        }
    }
}

/// The room left for the diff of the `k`-th file that `fit_files` admits
/// from `fs`: the pool less what the files before it used, its name and
/// fifty characters.
pub open spec fn room_of(fs: Seq<FileView>, pool: int, used: int, k: nat) -> int
    decreases k,
{
    let f = fs[0];
    let room = pool - (used + f.filename.len() + 50);
    if k == 0 {
        room
    } else {
        let g = if f.diff.len() > room { cut_file(f, room as nat) } else { f };
        room_of(fs.drop_first(), pool, used + f.filename.len() + 50 + g.diff.len(), (k - 1) as nat)
    }
}

proof fn lemma_fit_files_rooms(fs: Seq<FileView>, pool: int, used: int)
    requires
        used >= 0,
    ensures
        fit_files(fs, pool, used).len() <= fs.len(),
        forall|k: nat| k < fit_files(fs, pool, used).len() ==> {
            let a = room_of(fs, pool, used, k);
            &&& 0 < a <= pool
            &&& #[trigger] fit_files(fs, pool, used)[k as int] == (if fs[k as int].diff.len() > a {
                cut_file(fs[k as int], a as nat)
            } else {
                fs[k as int]
            })
        },
    decreases fs.len(),
{
    lemma_fit_files_within(fs, pool, used);
    if fs.len() > 0 {
        let f = fs[0];
        let room = pool - (used + f.filename.len() + 50);
        if room > 0 {
            let g = if f.diff.len() > room { cut_file(f, room as nat) } else { f };
            let next = used + f.filename.len() + 50 + g.diff.len();
            lemma_fit_files_rooms(fs.drop_first(), pool, next);
            let out = fit_files(fs, pool, used);
            assert forall|k: nat| k < out.len() implies {
                let a = room_of(fs, pool, used, k);
                &&& 0 < a <= pool
                &&& #[trigger] out[k as int] == (if fs[k as int].diff.len() > a { cut_file(fs[k as int], a as nat) } else { fs[k as int] })
            } by {
                if k > 0 {
                    let k1 = (k - 1) as nat;
                    assert(out[k as int] == fit_files(fs.drop_first(), pool, next)[k1 as int]);
                    assert(fs[k as int] == fs.drop_first()[k1 as int]);
                    assert(room_of(fs, pool, used, k) == room_of(fs.drop_first(), pool, next, k1));
                }
            }
        }
    }
}

/// Each kept file of a truncated commit has a room: what is left of the
/// commit's pool after the files before it, its name and fifty characters.
/// A diff longer than its room is cut to the room and ends with the
/// truncation marker; any other diff is kept whole.
pub proof fn lemma_truncation_per_file(c: CommitView, max_tokens: nat)
    ensures
        forall|k: nat| k < truncated_commit(c, max_tokens).files.len() ==> {
            let d = by_priority(c.files)[k as int];
            let a = room_of(by_priority(c.files), diff_pool(c, max_tokens), 0, k);
            let f = #[trigger] truncated_commit(c, max_tokens).files[k as int];
            &&& 0 < a <= diff_pool(c, max_tokens)
            &&& d.diff.len() > a ==> f.diff == d.diff.take(a) + marker() && f.filename == d.filename
            &&& d.diff.len() <= a ==> f == d
        },
{
    lemma_fit_files_rooms(by_priority(c.files), diff_pool(c, max_tokens), 0);
}

/// Truncation keeps every diff within the commit's character pool, and a
/// diff that was cut ends with the truncation marker.
pub proof fn lemma_truncation_within_pool(c: CommitView, max_tokens: nat)
    ensures
        truncated_commit(c, max_tokens).files.len() <= by_priority(c.files).len(),
        forall|k: int| 0 <= k < truncated_commit(c, max_tokens).files.len() ==> kept_within(
            by_priority(c.files)[k],
            #[trigger] truncated_commit(c, max_tokens).files[k],
            diff_pool(c, max_tokens),
        ),
{
    lemma_fit_files_within(by_priority(c.files), diff_pool(c, max_tokens), 0);
}

/// Splits batches into a greedy packing under a token budget.
pub struct CommitBatcher {
    pub max_tokens: usize,
    pub reserved_tokens: usize,
}

impl CommitBatcher {
    /// A batcher for a context window of `max_tokens` tokens.
    pub fn new(max_tokens: usize) -> (r: CommitBatcher)
        ensures
            r.max_tokens == max_tokens,
            r.reserved_tokens == RESERVED_TOKENS,
    {
        CommitBatcher { max_tokens, reserved_tokens: RESERVED_TOKENS }
    }

    /// Tokens a batch may use: the window less the reserve, and never below zero.
    pub open spec fn budget(&self) -> nat {
        if self.max_tokens >= self.reserved_tokens {
            (self.max_tokens - self.reserved_tokens) as nat
        } else {
            0
        }
    }

    pub fn available_tokens(&self) -> (r: usize)
        ensures
            r == self.budget(),
    {
        if self.max_tokens >= self.reserved_tokens {
            self.max_tokens - self.reserved_tokens
        } else {
            0
        }
    }

    /// Estimated token cost of one commit.
    pub fn estimate_commit_tokens(&self, commit: &CommitForAnalysis) -> (r: usize)
        requires
            commit_chars(commit@) <= usize::MAX,
        ensures
            r == commit_tokens(commit@),
    {
        self.commit_chars_of(commit) / 4 + 100
    }

    /// Characters of a commit's message, file names and diffs.
    pub fn commit_chars_of(&self, commit: &CommitForAnalysis) -> (r: usize)
        requires
            commit_chars(commit@) <= usize::MAX,
        ensures
            r == commit_chars(commit@),
    {
        let ghost fs = commit@.files;
        let mut total: usize = commit.message.as_str().unicode_len();
        let mut i: usize = 0;
        while i < commit.files_changed.len()
            invariant
                fs == file_views(commit.files_changed@),
                commit_chars(commit@) <= usize::MAX,
                i <= fs.len(),
                total == commit@.message.len() + files_chars(fs.take(i as int)),
            decreases commit.files_changed.len() - i,
        {
            let f = &commit.files_changed[i];
            let n = f.filename.as_str().unicode_len();
            let d = f.diff.as_str().unicode_len();
            proof {
                assert(fs.take(i + 1).drop_last() =~= fs.take(i as int));
                assert(fs.take(i + 1).last() == f@);
                lemma_files_chars_prefix(fs, i + 1);
            }
            total = total + n + d;
            i = i + 1;
        }
        assert(fs.take(i as int) =~= fs);
        total
    }

    /// How useful a file is to the analysis: source code first, lock files last.
    pub fn file_priority(&self, filename: &str) -> (r: u32)
        ensures
            r == priority_of(filename@),
    {
        let raw = extension(&chars_of(filename));
        let lowered = lowercase(string_of(&raw).as_str());
        let e = chars_of(lowered.as_str());
        if is_text(&e, "rs") || is_text(&e, "py") || is_text(&e, "ts") || is_text(&e, "js")
            || is_text(&e, "go") || is_text(&e, "java") || is_text(&e, "cpp") || is_text(&e, "c")
            || is_text(&e, "rb") || is_text(&e, "swift") || is_text(&e, "kt") {
            100
        } else if is_text(&e, "tsx") || is_text(&e, "jsx") || is_text(&e, "vue") || is_text(&e, "svelte") {
            90
        } else if is_text(&e, "sql") || is_text(&e, "graphql") {
            80
        } else if is_text(&e, "yaml") || is_text(&e, "yml") || is_text(&e, "toml") || is_text(&e, "json") {
            50
        } else if is_text(&e, "md") || is_text(&e, "txt") || is_text(&e, "rst") {
            30
        } else if is_text(&e, "lock") {
            0
        } else {
            40
        }
    }

    /// Copies of `files`, stably ordered by priority, highest first.
    fn order_by_priority(&self, files: &Vec<FileForAnalysis>) -> (r: Vec<FileForAnalysis>)
        ensures
            file_views(r@) == by_priority(file_views(files@)),
    {
        let ghost fs = file_views(files@);
        let mut prios: Vec<u32> = Vec::new();
        let mut i: usize = 0;
        while i < files.len()
            invariant
                i <= files@.len(),
                prios@.len() == i,
                forall|k: int| 0 <= k < i ==> prios@[k] == priority_of(#[trigger] files@[k].filename@),
            decreases files.len() - i,
        {
            let p = self.file_priority(files[i].filename.as_str());
            prios.push(p);
            i = i + 1;
        }
        let classes: Vec<u32> = vec![100, 90, 80, 50, 40, 30, 0];
        assert(classes@ == priority_classes());
        let mut out: Vec<FileForAnalysis> = Vec::new();
        let mut c: usize = 0;
        while c < classes.len()
            invariant
                classes@ == priority_classes(),
                fs == file_views(files@),
                prios@.len() == files@.len(),
                forall|k: int| 0 <= k < files@.len() ==> prios@[k] == priority_of(#[trigger] files@[k].filename@),
                c <= 7,
                file_views(out@) == ordered_prefix(fs, c as nat),
            decreases 7 - c,
        {
            let p = classes[c];
            let ghost before = file_views(out@);
            let mut j: usize = 0;
            while j < files.len()
                invariant
                    fs == file_views(files@),
                    prios@.len() == files@.len(),
                    forall|k: int| 0 <= k < files@.len() ==> prios@[k] == priority_of(#[trigger] files@[k].filename@),
                    j <= files@.len(),
                    file_views(out@) == before + with_priority(fs.take(j as int), p),
                decreases files.len() - j,
            {
                proof {
                    lemma_with_priority_step(fs, j as int, p);
                    assert(fs[j as int] == files@[j as int]@);
                }
                if prios[j] == p {
                    let d = files[j].duplicate();
                    let ghost prev = out@;
                    out.push(d);
                    assert(file_views(out@) =~= file_views(prev).push(d@));
                    assert(file_views(out@) =~= before + with_priority(fs.take(j + 1), p));
                } else {
                    assert(file_views(out@) =~= before + with_priority(fs.take(j + 1), p));
                }
                j = j + 1;
            }
            assert(fs.take(files@.len() as int) =~= fs);
            c = c + 1;
        }
        out
    }

    /// Packs `commits`, in order, into batches that fit the budget: a commit
    /// that alone exceeds it is cut down and sent as a batch of its own.
    pub fn create_batches(&self, commits: Vec<CommitForAnalysis>) -> (r: Vec<Vec<CommitForAnalysis>>)
        requires
            forall|i: int| 0 <= i < commits@.len() ==> commit_chars(#[trigger] commits@[i]@) <= usize::MAX,
        ensures
            batch_views(r@) == packed(commit_views(commits@), self.budget()),
            forall|k: int| 0 <= k < r@.len() ==> (#[trigger] r@[k])@.len() > 0,
            forall|k: int| 0 <= k < r@.len() && (#[trigger] r@[k])@.len() > 1
                ==> batch_tokens(commit_views(r@[k]@)) <= self.budget(),
            batch_views(r@).flatten_alt() == commit_views(commits@).map_values(
                |c: CommitView| emitted(c, self.budget()),
            ),
    {
        let ghost cs = commit_views(commits@);
        let ghost budget = self.budget();
        let ghost orig = commits@;
        let available = self.available_tokens();
        let mut commits = commits;
        assert(orig.len() == commits.len());
        let mut batches: Vec<Vec<CommitForAnalysis>> = Vec::new();
        let mut current: Vec<CommitForAnalysis> = Vec::new();
        let mut current_tokens: usize = 0;
        let mut i: usize = 0;
        proof {
            assert(cs.take(0) =~= Seq::<CommitView>::empty());
            assert(batch_views(batches@) =~= Seq::<Seq<CommitView>>::empty());
            assert(commit_views(current@) =~= Seq::<CommitView>::empty());
            assert(orig.subrange(0, orig.len() as int) =~= orig);
        }
        while commits.len() > 0
            invariant
                cs == commit_views(orig),
                budget == self.budget(),
                available == budget,
                forall|j: int| 0 <= j < orig.len() ==> commit_chars(#[trigger] orig[j]@) <= usize::MAX,
                i <= orig.len(),
                orig.len() <= usize::MAX,
                commits@ == orig.subrange(i as int, orig.len() as int),
                batch_views(batches@) == pack_state(cs.take(i as int), budget).done,
                commit_views(current@) == pack_state(cs.take(i as int), budget).current,
                current_tokens == pack_state(cs.take(i as int), budget).tokens,
            decreases commits.len(),
        {
            proof {
                lemma_pack_state(cs.take(i as int), budget);
            }
            let ghost st = pack_state(cs.take(i as int), budget);
            let commit = commits.remove(0);
            assert(commit == orig[i as int]);
            proof {
                assert(commits@ =~= orig.subrange(i + 1, orig.len() as int));
                assert(cs.take(i + 1).drop_last() =~= cs.take(i as int));
                assert(cs.take(i + 1).last() == commit@);
            }
            let t = self.estimate_commit_tokens(&commit);
            if t > available {
                let truncated = self.truncate_commit(commit, available);
                if current.len() > 0 {
                    let ghost prev = batches@;
                    batches.push(current);
                    assert(batch_views(batches@) =~= batch_views(prev).push(st.current));
                    current = Vec::new();
                    current_tokens = 0;
                }
                let mut single: Vec<CommitForAnalysis> = Vec::new();
                single.push(truncated);
                assert(commit_views(single@) =~= seq![truncated@]);
                let ghost prev = batches@;
                batches.push(single);
                assert(batch_views(batches@) =~= batch_views(prev).push(commit_views(single@)));
                assert(commit_views(current@) =~= Seq::<CommitView>::empty());
            } else {
                if t > available - current_tokens {
                    if current.len() > 0 {
                        let ghost prev = batches@;
                        batches.push(current);
                        assert(batch_views(batches@) =~= batch_views(prev).push(st.current));
                        current = Vec::new();
                    }
                    current_tokens = 0;
                }
                current_tokens = current_tokens + t;
                let ghost prev = current@;
                current.push(commit);
                assert(commit_views(current@) =~= commit_views(prev).push(commit@));
            }
            i = i + 1;
        }
        if current.len() > 0 {
            let ghost prev = batches@;
            batches.push(current);
            assert(batch_views(batches@) =~= batch_views(prev).push(pack_state(cs, budget).current));
        }
        proof {
            assert(cs.take(i as int) =~= cs);
            lemma_packing_laws(cs, budget);
            assert forall|k: int| 0 <= k < batches@.len() implies (#[trigger] batches@[k])@.len() > 0 by {
                assert(batch_views(batches@)[k] == commit_views(batches@[k]@));
            }
            assert forall|k: int| 0 <= k < batches@.len() && (#[trigger] batches@[k])@.len() > 1
                implies batch_tokens(commit_views(batches@[k]@)) <= budget by {
                assert(batch_views(batches@)[k] == commit_views(batches@[k]@));
            }
        }
        batches
    }

    /// `commit` with its files ordered by priority and cut down to fit `max_tokens`.
    pub fn truncate_commit(&self, commit: CommitForAnalysis, max_tokens: usize) -> (r: CommitForAnalysis)
        ensures
            r@ == truncated_commit(commit@, max_tokens as nat),
    {
        let sorted = self.order_by_priority(&commit.files_changed);
        let ghost fs = file_views(sorted@);
        let msg_len = commit.message.as_str().unicode_len();
        let max_chars: u128 = (max_tokens as u128) * 4;
        let overhead: u128 = msg_len as u128 + 200;
        let pool: u128 = if max_chars > overhead { max_chars - overhead } else { 0 };
        assert(pool == diff_pool(commit@, max_tokens as nat));
        let mut used: u128 = 0;
        let mut kept: Vec<FileForAnalysis> = Vec::new();
        let mut i: usize = 0;
        assert(fs.subrange(0, fs.len() as int) =~= fs);
        while i < sorted.len()
            invariant
                fs == file_views(sorted@),
                i <= sorted@.len(),
                used <= pool,
                pool == diff_pool(commit@, max_tokens as nat),
                pool <= max_tokens as u128 * 4,
                file_views(kept@) + fit_files(fs.subrange(i as int, fs.len() as int), pool as int, used as int)
                    == fit_files(fs, pool as int, 0),
            ensures
                file_views(kept@) == fit_files(fs, pool as int, 0),
            decreases sorted.len() - i,
        {
            let f = &sorted[i];
            let ghost rest = fs.subrange(i as int, fs.len() as int);
            assert(rest[0] == f@);
            assert(rest.drop_first() =~= fs.subrange(i + 1, fs.len() as int));
            let file_overhead: u128 = f.filename.as_str().unicode_len() as u128 + 50;
            if used + file_overhead >= pool {
                assert(fit_files(rest, pool as int, used as int) =~= Seq::<FileView>::empty());
                assert(file_views(kept@) + Seq::<FileView>::empty() =~= file_views(kept@));
                break;
            }
            let room: u128 = pool - (used + file_overhead);
            let dchars = chars_of(f.diff.as_str());
            let diff: String = if dchars.len() as u128 > room {
                let mut cut: Vec<char> = Vec::new();
                let mut k: usize = 0;
                while (k as u128) < room
                    invariant
                        room < dchars@.len(),
                        room < dchars.len() as u128,
                        k <= room,
                        cut@ == dchars@.take(k as int),
                    decreases room - k as u128,
                {
                    cut.push(dchars[k]);
                    k = k + 1;
                    assert(cut@ =~= dchars@.take(k as int));
                }
                let tail = chars_of("\n... [truncated]");
                let mut m: usize = 0;
                while m < tail.len()
                    invariant
                        m <= tail@.len(),
                        tail@ == marker(),
                        cut@ == dchars@.take(room as int) + tail@.take(m as int),
                    decreases tail.len() - m,
                {
                    cut.push(tail[m]);
                    m = m + 1;
                    assert(cut@ =~= dchars@.take(room as int) + tail@.take(m as int));
                }
                assert(tail@.take(tail@.len() as int) =~= tail@);
                string_of(&cut)
            } else {
                f.diff.clone()
            };
            let g = FileForAnalysis {
                filename: f.filename.clone(),
                language: crate::models::copy_text_opt(&f.language),
                diff,
                additions: f.additions,
                deletions: f.deletions,
            };
            let glen = g.diff.as_str().unicode_len() as u128;
            assert(g@ == (if f@.diff.len() > room { cut_file(f@, room as nat) } else { f@ }));
            assert(file_views(kept@.push(g)) =~= file_views(kept@).push(g@));
            assert(seq![g@] + fit_files(rest.drop_first(), pool as int, used + file_overhead + glen)
                == fit_files(rest, pool as int, used as int));
            assert(file_views(kept@).push(g@) + fit_files(rest.drop_first(), pool as int, (used + file_overhead + glen) as int)
                =~= file_views(kept@) + (seq![g@] + fit_files(rest.drop_first(), pool as int, (used + file_overhead + glen) as int)));
            kept.push(g);
            used = if used + file_overhead + glen > pool { pool } else { used + file_overhead + glen };
            i = i + 1;
            if i == sorted.len() {
                assert(fit_files(fs.subrange(i as int, fs.len() as int), pool as int, used as int) =~= Seq::<FileView>::empty());
                assert(file_views(kept@) + Seq::<FileView>::empty() =~= file_views(kept@));
            }
        }
        CommitForAnalysis {
            sha: commit.sha,
            repository: commit.repository,
            message: commit.message,
            stats: commit.stats,
            files_changed: kept,
            committed_at: commit.committed_at,
        }
    }
}

/// Tokens of the generation service's context window.
pub const DEFAULT_CONTEXT_TOKENS: usize = 200000;

impl Default for CommitBatcher {
    fn default() -> (r: CommitBatcher)
        ensures
            r.max_tokens == DEFAULT_CONTEXT_TOKENS,
            r.reserved_tokens == RESERVED_TOKENS,
    {
        CommitBatcher::new(DEFAULT_CONTEXT_TOKENS)
    }
}

} // verus!
