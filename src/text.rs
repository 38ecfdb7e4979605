//! Character-level helpers shared by the parsers, the taxonomy and the batcher.
use vstd::prelude::*;

verus! {

// The lowercase form of a text, as `str::to_lowercase` computes it.
pub uninterp spec fn lower_of(s: Seq<char>) -> Seq<char>;

/// Relies on `str::chars` collected into a `Vec`: the characters of `s` in order.
#[verifier::external_body]
pub(crate) fn chars_of(s: &str) -> (r: Vec<char>)
    ensures
        r@ == s@,
{
    s.chars().collect()
}

/// Relies on `FromIterator<char>` for `String`: the text made of `v`'s characters in order.
#[verifier::external_body]
pub(crate) fn string_of(v: &Vec<char>) -> (r: String)
    ensures
        r@ == v@,
{
    v.iter().collect()
}

/// Relies on `str::to_lowercase`: the lowercase form of `s` under Unicode's
/// lowercase mapping, which depends on the characters of `s` alone.
#[verifier::external_body]
pub(crate) fn lowercase(s: &str) -> (r: String)
    ensures
        r@ == lower_of(s@),
{
    s.to_lowercase()
}

/// Whether two texts hold the same characters.
pub fn same_text(a: &str, b: &str) -> (r: bool)
    ensures
        r == (a@ == b@),
{
    let x = chars_of(a);
    let y = chars_of(b);
    if x.len() != y.len() {
        return false;
    }
    let mut i: usize = 0;
    while i < x.len()
        invariant
            x@ == a@,
            y@ == b@,
            x.len() == y.len(),
            i <= x.len(),
            forall|j: int| 0 <= j < i ==> x@[j] == y@[j],
        decreases x.len() - i,
    {
        if x[i] != y[i] {
            return false;
        }
        i = i + 1;
    }
    assert(x@ =~= y@);
    true
}


/// `p` occurs in `s` starting at index `at`.
pub open spec fn occurs_at(s: Seq<char>, at: int, p: Seq<char>) -> bool {
    0 <= at && at + p.len() <= s.len() && s.subrange(at, at + p.len()) == p
}

pub open spec fn has_prefix(s: Seq<char>, p: Seq<char>) -> bool {
    occurs_at(s, 0, p)
}

pub open spec fn has_suffix(s: Seq<char>, p: Seq<char>) -> bool {
    occurs_at(s, s.len() - p.len(), p)
}

/// `p` occurs in `s` somewhere at or after `from`.
pub open spec fn occurs_from(s: Seq<char>, from: int, p: Seq<char>) -> bool {
    exists|i: int| from <= i && #[trigger] occurs_at(s, i, p)
}

/// Whether `p` occurs in `s` at index `at`.
pub fn matches_at(s: &Vec<char>, at: usize, p: &Vec<char>) -> (r: bool)
    ensures
        r == occurs_at(s@, at as int, p@),
{
    if at > s.len() || p.len() > s.len() - at {
        return false;
    }
    let mut j: usize = 0;
    while j < p.len()
        invariant
            at + p.len() <= s.len(),
            j <= p.len(),
            forall|k: int| 0 <= k < j ==> s@[at + k] == p@[k],
        decreases p.len() - j,
    {
        if s[at + j] != p[j] {
            assert(s@.subrange(at as int, at + p.len())[j as int] != p@[j as int]);
            return false;
        }
        j = j + 1;
    }
    assert(s@.subrange(at as int, at + p.len()) =~= p@);
    true
}

/// `i` is the first index at or after `from` where `p` occurs in `s`.
pub open spec fn first_at(s: Seq<char>, from: int, p: Seq<char>, i: int) -> bool {
    from <= i && occurs_at(s, i, p) && forall|k: int| from <= k < i ==> !#[trigger] occurs_at(s, k, p)
}

/// The first index at or after `from` where `p` occurs in `s`.
pub open spec fn find(s: Seq<char>, from: int, p: Seq<char>) -> Option<int> {
    if exists|i: int| #[trigger] first_at(s, from, p, i) {
        Some(choose|i: int| #[trigger] first_at(s, from, p, i))
    } else {
        None
    }
}

/// The first index at or after `from` where `p` occurs in `s`.
pub fn find_from(s: &Vec<char>, from: usize, p: &Vec<char>) -> (r: Option<usize>)
    ensures
        r matches Some(i) ==> find(s@, from as int, p@) == Some(i as int) && first_at(s@, from as int, p@, i as int),
        r is None ==> find(s@, from as int, p@) is None,
{
    let r = find_first(s, from, p);
    proof {
        match r {
            Some(i) => {
                assert(first_at(s@, from as int, p@, i as int));
                let j = choose|j: int| #[trigger] first_at(s@, from as int, p@, j);
                if j < i {
                } else if j > i {
                    assert(!occurs_at(s@, i as int, p@));
                }
            },
            None => {
                if exists|i: int| #[trigger] first_at(s@, from as int, p@, i) {
                    let j = choose|j: int| #[trigger] first_at(s@, from as int, p@, j);
                    assert(occurs_at(s@, j, p@));
                }
            },
        }
    }
    r
}

fn find_first(s: &Vec<char>, from: usize, p: &Vec<char>) -> (r: Option<usize>)
    ensures
        r matches Some(i) ==> from <= i && occurs_at(s@, i as int, p@)
            && forall|k: int| from <= k < i ==> !#[trigger] occurs_at(s@, k, p@),
        r is None ==> !occurs_from(s@, from as int, p@),
{
    if from > s.len() {
        assert forall|k: int| from <= k implies !#[trigger] occurs_at(s@, k, p@) by {}
        return None;
    }
    let mut i: usize = from;
    while i < s.len()
        invariant
            from <= i <= s.len(),
            forall|k: int| from <= k < i ==> !#[trigger] occurs_at(s@, k, p@),
        decreases s.len() - i,
    {
        if matches_at(s, i, p) {
            return Some(i);
        }
        i = i + 1;
    }
    if matches_at(s, i, p) {
        return Some(i);
    }
    assert forall|k: int| from <= k implies !#[trigger] occurs_at(s@, k, p@) by {
        if k > i {
            assert(k + p@.len() > s@.len());
        }
    }
    None
}

/// Whether `s` begins with `p`.
pub fn starts_with(s: &Vec<char>, p: &str) -> (r: bool)
    ensures
        r == has_prefix(s@, p@),
{
    let pv = chars_of(p);
    matches_at(s, 0, &pv)
}

/// Whether `s` ends with `p`.
pub fn ends_with(s: &Vec<char>, p: &str) -> (r: bool)
    ensures
        r == has_suffix(s@, p@),
{
    let pv = chars_of(p);
    if pv.len() > s.len() {
        return false;
    }
    matches_at(s, s.len() - pv.len(), &pv)
}

/// Whether `s` holds exactly the characters of `p`.
pub fn is_text(s: &Vec<char>, p: &str) -> (r: bool)
    ensures
        r == (s@ == p@),
{
    let pv = chars_of(p);
    if pv.len() != s.len() {
        return false;
    }
    let r = matches_at(s, 0, &pv);
    proof {
        if r {
            assert(s@.subrange(0, s@.len() as int) =~= s@);
        } else {
            assert(s@.subrange(0, s@.len() as int) =~= s@);
        }
    }
    r
}

/// The characters of `s` from `start` up to `end`, as a new text.
pub fn substring(s: &Vec<char>, start: usize, end: usize) -> (r: String)
    requires
        start <= end <= s@.len(),
    ensures
        r@ == s@.subrange(start as int, end as int),
{
    let mut out: Vec<char> = Vec::new();
    let mut i: usize = start;
    while i < end
        invariant
            start <= i <= end <= s@.len(),
            out@ == s@.subrange(start as int, i as int),
        decreases end - i,
    {
        out.push(s[i]);
        i = i + 1;
        assert(out@ =~= s@.subrange(start as int, i as int));
    }
    string_of(&out)
}


/// The value of the first entry of `t` whose key is `k`.
pub open spec fn lookup(t: Seq<(Seq<char>, Seq<char>)>, k: Seq<char>) -> Option<Seq<char>>
    decreases t.len(),
{
    if t.len() == 0 {
        None
    } else if t[0].0 == k {
        Some(t[0].1)
    } else {
        lookup(t.drop_first(), k)
    }
}

/// A found value belongs to an entry with that key.
pub proof fn lemma_lookup_found(t: Seq<(Seq<char>, Seq<char>)>, k: Seq<char>)
    requires
        lookup(t, k) is Some,
    ensures
        exists|i: int| 0 <= i < t.len() && #[trigger] t[i] == (k, lookup(t, k)->0),
    decreases t.len(),
{
    if t[0].0 != k {
        lemma_lookup_found(t.drop_first(), k);
        let i = choose|i: int| 0 <= i < t.drop_first().len() && #[trigger] t.drop_first()[i] == (k, lookup(t, k)->0);
        assert(t[i + 1] == t.drop_first()[i]);
    } else {
        assert(t[0] == (k, lookup(t, k)->0));
    }
}

/// A key that no entry carries is not found.
pub proof fn lemma_lookup_absent(t: Seq<(Seq<char>, Seq<char>)>, k: Seq<char>)
    requires
        forall|i: int| 0 <= i < t.len() ==> (#[trigger] t[i]).0 != k,
    ensures
        lookup(t, k) is None,
    decreases t.len(),
{
    if t.len() > 0 {
        assert forall|i: int| 0 <= i < t.drop_first().len() implies (#[trigger] t.drop_first()[i]).0 != k by {
            assert(t.drop_first()[i] == t[i + 1]);
        }
        lemma_lookup_absent(t.drop_first(), k);
    }
}

/// The first entry of `t` with key `k` is at index `i`.
pub proof fn lemma_lookup_at(t: Seq<(Seq<char>, Seq<char>)>, k: Seq<char>, i: int)
    requires
        0 <= i < t.len(),
        t[i].0 == k,
        forall|j: int| 0 <= j < i ==> (#[trigger] t[j]).0 != k,
    ensures
        lookup(t, k) == Some(t[i].1),
    decreases t.len(),
{
    if i > 0 {
        assert forall|j: int| 0 <= j < i - 1 implies (#[trigger] t.drop_first()[j]).0 != k by {
            assert(t.drop_first()[j] == t[j + 1]);
        }
        lemma_lookup_at(t.drop_first(), k, i - 1);
    }
}


/// The characters that `str::trim` removes: Unicode White_Space.
pub open spec fn is_space(c: char) -> bool {
    c == ' ' || c == '\t' || c == '\n' || c == '\r' || c == '\u{0B}' || c == '\u{0C}'
        || c == '\u{85}' || c == '\u{A0}' || c == '\u{1680}'
        || ('\u{2000}' <= c && c <= '\u{200A}')
        || c == '\u{2028}' || c == '\u{2029}' || c == '\u{202F}' || c == '\u{205F}' || c == '\u{3000}'
}

pub fn is_space_exec(c: char) -> (r: bool)
    ensures
        r == is_space(c),
{
    c == ' ' || c == '\t' || c == '\n' || c == '\r' || c == '\u{0B}' || c == '\u{0C}'
        || c == '\u{85}' || c == '\u{A0}' || c == '\u{1680}'
        || ('\u{2000}' <= c && c <= '\u{200A}')
        || c == '\u{2028}' || c == '\u{2029}' || c == '\u{202F}' || c == '\u{205F}' || c == '\u{3000}'
}

/// `s` without its leading and trailing white space.
pub open spec fn trimmed(s: Seq<char>) -> Seq<char> {
    let a = if exists|i: int| 0 <= i < s.len() && !is_space(#[trigger] s[i]) {
        choose|i: int| 0 <= i < s.len() && !is_space(#[trigger] s[i])
            && forall|k: int| 0 <= k < i ==> is_space(#[trigger] s[k])
    } else {
        s.len() as int
    };
    let b = if exists|i: int| 0 <= i < s.len() && !is_space(#[trigger] s[i]) {
        1 + choose|i: int| 0 <= i < s.len() && !is_space(#[trigger] s[i])
            && forall|k: int| i < k < s.len() ==> is_space(#[trigger] s[k])
    } else {
        s.len() as int
    };
    s.subrange(a, b)
}

/// The characters of `s` from `start` to `end`, without leading and trailing white space.
pub fn trim_range(s: &Vec<char>, start: usize, end: usize) -> (r: Vec<char>)
    requires
        start <= end <= s@.len(),
    ensures
        r@ == trimmed(s@.subrange(start as int, end as int)),
{
    let ghost t = s@.subrange(start as int, end as int);
    let mut a: usize = start;
    while a < end && is_space_exec(s[a])
        invariant
            start <= a <= end <= s@.len(),
            t == s@.subrange(start as int, end as int),
            forall|k: int| 0 <= k < a - start ==> is_space(#[trigger] t[k]),
        decreases end - a,
    {
        a = a + 1;
    }
    let mut b: usize = end;
    while b > a && is_space_exec(s[b - 1])
        invariant
            start <= a <= b <= end <= s@.len(),
            t == s@.subrange(start as int, end as int),
            forall|k: int| b - start <= k < end - start ==> is_space(#[trigger] t[k]),
        decreases b,
    {
        b = b - 1;
    }
    let mut out: Vec<char> = Vec::new();
    let mut i: usize = a;
    while i < b
        invariant
            a <= i <= b <= s@.len(),
            out@ == s@.subrange(a as int, i as int),
        decreases b - i,
    {
        out.push(s[i]);
        i = i + 1;
        assert(out@ =~= s@.subrange(a as int, i as int));
    }
    proof {
        let ai = a - start;
        let bi = b - start;
        if exists|i: int| 0 <= i < t.len() && !is_space(#[trigger] t[i]) {
            assert(ai < t.len() && !is_space(t[ai]));
            let x = choose|i: int| 0 <= i < t.len() && !is_space(#[trigger] t[i])
                && forall|k: int| 0 <= k < i ==> is_space(#[trigger] t[k]);
            assert(forall|k: int| 0 <= k < ai ==> is_space(#[trigger] t[k]));
            if x < ai { assert(is_space(t[x])); }
            if x > ai { assert(is_space(t[ai])); }
            assert(bi > ai);
            assert(!is_space(t[bi - 1]));
            let y = choose|i: int| 0 <= i < t.len() && !is_space(#[trigger] t[i])
                && forall|k: int| i < k < t.len() ==> is_space(#[trigger] t[k]);
            if y < bi - 1 { assert(is_space(t[bi - 1])); }
            if y > bi - 1 { assert(is_space(t[y])); }
            assert(out@ =~= t.subrange(ai, bi));
        } else {
            if ai < t.len() { assert(!is_space(t[ai])); }
            assert(out@ =~= t.subrange(t.len() as int, t.len() as int));
        }
    }
    out
}


/// The decimal digit `d`.
pub open spec fn digit(d: nat) -> char {
    seq!['0', '1', '2', '3', '4', '5', '6', '7', '8', '9'][d as int]
}

/// The decimal numeral of `n`.
pub open spec fn decimal(n: nat) -> Seq<char>
    decreases n,
{
    if n < 10 { seq![digit(n)] } else { decimal(n / 10).push(digit(n % 10)) }
}

/// `v` extended by the decimal numeral of `n`.
pub fn push_decimal(v: &mut Vec<char>, n: u64)
    ensures
        final(v)@ == old(v)@ + decimal(n as nat),
    decreases n,
{
    if n >= 10 {
        push_decimal(v, n / 10);
    }
    let digits: Vec<char> = vec!['0', '1', '2', '3', '4', '5', '6', '7', '8', '9'];
    assert(digits@ == seq!['0', '1', '2', '3', '4', '5', '6', '7', '8', '9']);
    let ghost before = v@;
    v.push(digits[(n % 10) as usize]);
    proof {
        if n < 10 {
            assert(n % 10 == n);
        }
    }
}

/// `v` extended by the characters of `s`.
pub fn push_text(v: &mut Vec<char>, s: &str)
    ensures
        final(v)@ == old(v)@ + s@,
{
    let cs = chars_of(s);
    let ghost start = v@;
    let mut i: usize = 0;
    while i < cs.len()
        invariant
            cs@ == s@,
            i <= cs@.len(),
            v@ == start + cs@.take(i as int),
        decreases cs.len() - i,
    {
        v.push(cs[i]);
        i = i + 1;
        assert(v@ =~= start + cs@.take(i as int));
    }
    assert(cs@.take(i as int) =~= cs@);
}

/// The mean `sum / count` in tenths, rounded half up, as `whole.tenth`.
pub open spec fn tenths(sum: nat, count: nat) -> Seq<char> {
    let t = (20 * sum + count) / (2 * count);
    decimal(t / 10) + seq!['.'] + decimal(t % 10)
}

/// `v` extended by the mean `sum / count` to one decimal place.
pub fn push_tenths(v: &mut Vec<char>, sum: u128, count: u128)
    requires
        0 < count <= u64::MAX,
        sum <= 1000 * count,
    ensures
        final(v)@ == old(v)@ + tenths(sum as nat, count as nat),
{
    proof {
        vstd::arithmetic::div_mod::lemma_div_is_ordered((20 * sum + count) as int, (20001 * count) as int, (2 * count) as int);
        assert((20001 * count) as int / (2 * count) as int <= 20001) by (nonlinear_arith)
            requires count > 0;
    }
    let t: u128 = (20 * sum + count) / (2 * count);
    assert(t <= 20001);
    let t: u64 = t as u64;
    let ghost start = v@;
    push_decimal(v, t / 10);
    v.push('.');
    push_decimal(v, t % 10);
    assert(v@ =~= start + tenths(sum as nat, count as nat));
}

} // verus!
