//! Locating the JSON object in a free-form generation response.
use vstd::prelude::*;
use crate::error::Error;
use crate::text::{chars_of, find, find_from, occurs_at, string_of, trim_range, trimmed};

verus! {

/// The object inside the first fence tagged as JSON.
pub open spec fn fenced_json(t: Seq<char>) -> Option<Seq<char>> {
    match find(t, 0, "```json"@) {
        Some(s) => match find(t, s + 7, "```"@) {
            Some(e) => Some(trimmed(t.subrange(s + 7, e))),
            None => None,
        },
        None => None,
    }
}

/// The content of the first fence, from the line after its opening, when it begins with `{`.
pub open spec fn fenced_object(t: Seq<char>) -> Option<Seq<char>> {
    match find(t, 0, "```"@) {
        Some(s) => {
            let start = match find(t, s + 3, "\n"@) {
                Some(i) => i + 1,
                None => s + 3,
            };
            match find(t, start, "```"@) {
                Some(e) => {
                    let c = trimmed(t.subrange(start, e));
                    if c.len() > 0 && c[0] == '{' { Some(c) } else { None }
                },
                None => None,
            }
        },
        None => None,
    }
}

/// Where a scan for the end of an object stands: brace depth, inside a
/// quoted string, and whether the next character is escaped.
pub struct ScanState {
    pub depth: int,
    pub in_string: bool,
    pub escaped: bool,
}

pub open spec fn scan_step(st: ScanState, c: char) -> ScanState {
    if st.escaped {
        ScanState { escaped: false, ..st }
    } else if c == '\\' && st.in_string {
        ScanState { escaped: true, ..st }
    } else if c == '"' {
        ScanState { in_string: !st.in_string, ..st }
    } else if c == '{' && !st.in_string {
        ScanState { depth: st.depth + 1, ..st }
    } else if c == '}' && !st.in_string {
        ScanState { depth: st.depth - 1, ..st }
    } else {
        st
    }
}

/// The scan state after reading `s` from the start.
pub open spec fn scan(s: Seq<char>) -> ScanState {
    s.fold_left(ScanState { depth: 0, in_string: false, escaped: false }, |st: ScanState, c: char| scan_step(st, c))
}

/// The object starting at `start` closes just before `k`.
pub open spec fn closes_at(t: Seq<char>, start: int, k: int) -> bool {
    start < k <= t.len() && scan(t.subrange(start, k)).depth == 0
}

/// The first balanced object of `t`, from its first `{` to the brace that closes it.
pub open spec fn balanced_object(t: Seq<char>) -> Option<Seq<char>> {
    match find(t, 0, "{"@) {
        Some(s) => if exists|k: int| #[trigger] closes_at(t, s, k) && forall|j: int| s < j < k ==> !#[trigger] closes_at(t, s, j) {
            let k = choose|k: int| #[trigger] closes_at(t, s, k) && forall|j: int| s < j < k ==> !#[trigger] closes_at(t, s, j);
            Some(t.subrange(s, k))
        } else {
            None
        },
        None => None,
    }
}

/// The JSON text of a response: a JSON fence, else a plain fence holding an
/// object, else the first balanced object.
pub open spec fn json_in(t: Seq<char>) -> Option<Seq<char>> {
    match fenced_json(t) {
        Some(j) => Some(j),
        None => match fenced_object(t) {
            Some(j) => Some(j),
            None => balanced_object(t),
        },
    }
}

/// The end of the object starting at `start`, if it closes.
fn scan_object(t: &Vec<char>, start: usize) -> (r: Option<usize>)
    requires
        start < t@.len(),
        t@[start as int] == '{',
    ensures
        r matches Some(k) ==> closes_at(t@, start as int, k as int)
            && forall|j: int| start < j < k ==> !#[trigger] closes_at(t@, start as int, j),
        r is None ==> forall|j: int| #![trigger closes_at(t@, start as int, j)] !closes_at(t@, start as int, j),
{
    let mut depth: i128 = 0;
    let mut in_string = false;
    let mut escaped = false;
    let mut k: usize = start;
    assert(t@.subrange(start as int, start as int) =~= Seq::<char>::empty());
    while k < t.len()
        invariant
            start <= k <= t@.len(),
            scan(t@.subrange(start as int, k as int)) == (ScanState { depth: depth as int, in_string, escaped }),
            -(k - start) <= depth <= k - start,
            k > start ==> depth >= 1,
            t@[start as int] == '{',
            k == start ==> depth == 0 && !in_string && !escaped,
            forall|j: int| start < j <= k ==> !#[trigger] closes_at(t@, start as int, j),
        decreases t.len() - k,
    {
        let c = t[k];
        let ghost before = ScanState { depth: depth as int, in_string, escaped };
        proof {
            assert(t@.subrange(start as int, k + 1).drop_last() =~= t@.subrange(start as int, k as int));
            assert(t@.subrange(start as int, k + 1).last() == c);
            assert(scan(t@.subrange(start as int, k + 1)) == scan_step(before, c));
        }
        if escaped {
            escaped = false;
        } else if c == '\\' && in_string {
            escaped = true;
        } else if c == '"' {
            in_string = !in_string;
        } else if c == '{' && !in_string {
            depth = depth + 1;
        } else if c == '}' && !in_string {
            depth = depth - 1;
            if depth == 0 {
                return Some(k + 1);
            }
        }
        assert(scan(t@.subrange(start as int, k + 1)) == (ScanState { depth: depth as int, in_string, escaped }));
        k = k + 1;
    }
    None
}

fn fenced_json_exec(t: &Vec<char>) -> (r: Option<Vec<char>>)
    ensures
        r matches Some(v) ==> fenced_json(t@) == Some(v@),
        r is None ==> fenced_json(t@) is None,
{
    let json_fence = chars_of("```json");
    let fence = chars_of("```");
    proof {
        reveal_strlit("```json");
        reveal_strlit("```");
    }
    assert(json_fence@.len() == 7);
    match find_from(t, 0, &json_fence) {
        Some(s) => {
            assert(occurs_at(t@, s as int, json_fence@));
            assert(t@.len() == t.len());
            match find_from(t, s + 7, &fence) {
                Some(e) => {
                    assert(occurs_at(t@, e as int, fence@));
                    Some(trim_range(t, s + 7, e))
                },
                None => None,
            }
        },
        None => None,
    }
}

fn fenced_object_exec(t: &Vec<char>) -> (r: Option<Vec<char>>)
    ensures
        r matches Some(v) ==> fenced_object(t@) == Some(v@),
        r is None ==> fenced_object(t@) is None,
{
    let fence = chars_of("```");
    let newline = chars_of("\n");
    proof {
        reveal_strlit("```");
        reveal_strlit("\n");
    }
    assert(fence@.len() == 3);
    assert(newline@.len() == 1);
    match find_from(t, 0, &fence) {
        Some(s0) => {
            assert(occurs_at(t@, s0 as int, fence@));
            assert(t@.len() == t.len());
            let s = s0 + 3;
            let start = match find_from(t, s, &newline) {
                Some(i) => {
                    assert(occurs_at(t@, i as int, newline@));
                    i + 1
                },
                None => s,
            };
            match find_from(t, start, &fence) {
                Some(e) => {
                    assert(occurs_at(t@, e as int, fence@));
                    let c = trim_range(t, start, e);
                    if c.len() > 0 && c[0] == '{' {
                        Some(c)
                    } else {
                        None
                    }
                },
                None => None,
            }
        },
        None => None,
    }
}

fn balanced_object_exec(t: &Vec<char>) -> (r: Option<Vec<char>>)
    ensures
        r matches Some(v) ==> balanced_object(t@) == Some(v@),
        r is None ==> balanced_object(t@) is None,
{
    let brace = chars_of("{");
    proof {
        reveal_strlit("{");
    }
    assert(brace@ =~= seq!['{']);
    match find_from(t, 0, &brace) {
        Some(s) => {
            assert(occurs_at(t@, s as int, brace@));
            assert(t@[s as int] == t@.subrange(s as int, s + 1)[0]);
            match scan_object(t, s) {
                Some(k) => {
                    let mut out: Vec<char> = Vec::new();
                    let mut i: usize = s;
                    while i < k
                        invariant
                            s <= i <= k <= t@.len(),
                            out@ == t@.subrange(s as int, i as int),
                        decreases k - i,
                    {
                        out.push(t[i]);
                        i = i + 1;
                        assert(out@ =~= t@.subrange(s as int, i as int));
                    }
                    proof {
                        let k2 = choose|k2: int| #[trigger] closes_at(t@, s as int, k2)
                            && forall|j: int| s < j < k2 ==> !#[trigger] closes_at(t@, s as int, j);
                        if k2 < k { assert(!closes_at(t@, s as int, k2)); }
                        if k2 > k { assert(!closes_at(t@, s as int, k as int)); }
                    }
                    Some(out)
                },
                None => None,
            }
        },
        None => None,
    }
}

/// The JSON object in a generation response: the first fence tagged as JSON,
/// else a plain fence whose content starts with `{`, else the first balanced
/// object, reading braces inside strings as text.
pub fn extract_json(text: &str) -> (r: Result<String, Error>)
    ensures
        r matches Ok(s) ==> json_in(text@) == Some(s@),
        r is Err ==> json_in(text@) is None,
        r matches Err(e) ==> e matches Error::ParseError(m) && m@ == "No valid JSON found in response"@,
{
    let t = chars_of(text);
    if let Some(v) = fenced_json_exec(&t) {
        return Ok(string_of(&v));
    }
    if let Some(v) = fenced_object_exec(&t) {
        return Ok(string_of(&v));
    }
    if let Some(v) = balanced_object_exec(&t) {
        return Ok(string_of(&v));
    }
    Err(Error::ParseError(String::from_str("No valid JSON found in response")))
}

} // verus!
