//! Character classification, case folding, and whitespace-separated
//! tokenization of class attribute values.
use vstd::prelude::*;

verus! {

/// The characters that separate class names inside a `class` attribute value:
/// space, tab, line feed, carriage return and form feed.
pub open spec fn is_sel_ws(c: char) -> bool {
    c == ' ' || c == '\t' || c == '\n' || c == '\r' || c == '\u{c}'
}

/// Unicode whitespace, the set that trimming a string removes.
pub open spec fn is_uni_ws(c: char) -> bool {
    let u = c as u32;
    (9 <= u && u <= 13) || u == 32 || u == 0x85 || u == 0xA0 || u == 0x1680 || (0x2000 <= u && u
        <= 0x200A) || u == 0x2028 || u == 0x2029 || u == 0x202F || u == 0x205F || u == 0x3000
}

pub fn is_selector_whitespace(c: char) -> (r: bool)
    ensures
        r == is_sel_ws(c),
{
    c == ' ' || c == '\t' || c == '\n' || c == '\r' || c == '\u{c}'
}

pub fn is_unicode_whitespace(c: char) -> (r: bool)
    ensures
        r == is_uni_ws(c),
{
    let u = c as u32;
    (9 <= u && u <= 13) || u == 32 || u == 0x85 || u == 0xA0 || u == 0x1680 || (0x2000 <= u && u
        <= 0x200A) || u == 0x2028 || u == 0x2029 || u == 0x202F || u == 0x205F || u == 0x3000
}

/// The unicode scalar value of `c`, with an ASCII upper-case letter folded to
/// its lower-case counterpart; all other characters are left as they are.
pub open spec fn fold_char(c: char) -> int {
    let u = c as u32;
    if 65 <= u && u <= 90 {
        u + 32
    } else {
        u as int
    }
}

/// Two character sequences are equal up to ASCII case folding.
pub open spec fn seq_eq_fold(a: Seq<char>, b: Seq<char>) -> bool {
    a.len() == b.len() && (forall|i: int| 0 <= i < a.len() ==> fold_char(a[i]) == fold_char(b[i]))
}

fn char_eq_fold(a: char, b: char) -> (r: bool)
    ensures
        r == (fold_char(a) == fold_char(b)),
{
    let ua = a as u32;
    let ub = b as u32;
    let fa = if 65 <= ua && ua <= 90 {
        ua + 32
    } else {
        ua
    };
    let fb = if 65 <= ub && ub <= 90 {
        ub + 32
    } else {
        ub
    };
    fa == fb
}

/// Exact equality of two string slices, by characters.
pub fn str_eq(a: &str, b: &str) -> (r: bool)
    ensures
        r == (a@ == b@),
{
    let la = a.unicode_len();
    let lb = b.unicode_len();
    if la != lb {
        proof {
            assert(a@ != b@) by {
                if a@ == b@ {
                    assert(a@.len() == b@.len());
                }
            }
        }
        return false;
    }
    let mut i: usize = 0;
    while i < la
        invariant
            la == a@.len() && la == b@.len(),
            0 <= i <= la,
            forall|j: int| 0 <= j < i ==> a@[j] == b@[j],
        decreases la - i,
    {
        if a.get_char(i) != b.get_char(i) {
            return false;
        }
        i = i + 1;
    }
    proof {
        assert(a@ =~= b@);
    }
    true
}

/// Equality of two string slices up to ASCII case folding.
pub fn str_eq_fold(a: &str, b: &str) -> (r: bool)
    ensures
        r == seq_eq_fold(a@, b@),
{
    let la = a.unicode_len();
    let lb = b.unicode_len();
    if la != lb {
        return false;
    }
    let mut i: usize = 0;
    while i < la
        invariant
            la == a@.len() && la == b@.len(),
            0 <= i <= la,
            forall|j: int| 0 <= j < i ==> fold_char(a@[j]) == fold_char(b@[j]),
        decreases la - i,
    {
        if !char_eq_fold(a.get_char(i), b.get_char(i)) {
            return false;
        }
        i = i + 1;
    }
    true
}

/// The first position at or after `i` holding a non-separator character
/// (`v.len()` if there is none).
pub open spec fn skip_ws(v: Seq<char>, i: int) -> int
    decreases v.len() - i,
{
    if i < 0 || i >= v.len() {
        v.len() as int
    } else if is_sel_ws(v[i]) {
        skip_ws(v, i + 1)
    } else {
        i
    }
}

/// The first position at or after `i` holding a separator character
/// (`v.len()` if there is none).
pub open spec fn token_end(v: Seq<char>, i: int) -> int
    decreases v.len() - i,
{
    if i < 0 || i >= v.len() {
        v.len() as int
    } else if !is_sel_ws(v[i]) {
        token_end(v, i + 1)
    } else {
        i
    }
}

pub proof fn lemma_skip_ws(v: Seq<char>, i: int)
    requires
        0 <= i <= v.len(),
    ensures
        i <= skip_ws(v, i) <= v.len(),
        skip_ws(v, i) < v.len() ==> !is_sel_ws(v[skip_ws(v, i)]),
        forall|m: int| i <= m < skip_ws(v, i) ==> is_sel_ws(v[m]),
    decreases v.len() - i,
{
    if i < v.len() && is_sel_ws(v[i]) {
        lemma_skip_ws(v, i + 1);
    }
}

pub proof fn lemma_token_end(v: Seq<char>, i: int)
    requires
        0 <= i <= v.len(),
    ensures
        i <= token_end(v, i) <= v.len(),
        token_end(v, i) < v.len() ==> is_sel_ws(v[token_end(v, i)]),
        forall|m: int| i <= m < token_end(v, i) ==> !is_sel_ws(v[m]),
    decreases v.len() - i,
{
    if i < v.len() && !is_sel_ws(v[i]) {
        lemma_token_end(v, i + 1);
    }
}

/// The non-empty tokens of `v` from position `i` on, in order, where tokens
/// are maximal runs of non-separator characters.
pub open spec fn tokens_from(v: Seq<char>, i: int) -> Seq<Seq<char>>
    decreases v.len() - i, 1int,
        when 0 <= i <= v.len()
        via tokens_from_decreases
{
    let s = skip_ws(v, i);
    if s >= v.len() {
        seq![]
    } else {
        let e = token_end(v, s);
        seq![v.subrange(s, e)] + tokens_from(v, e)
    }
}

#[via_fn]
proof fn tokens_from_decreases(v: Seq<char>, i: int) {
    lemma_skip_ws(v, i);
    let s = skip_ws(v, i);
    if s < v.len() {
        lemma_token_end(v, s);
        assert(token_end(v, s) > s) by {
            if token_end(v, s) == s {
                assert(is_sel_ws(v[s]));
            }
        }
    }
}

/// The whitespace-separated, non-empty tokens of a class attribute value.
pub open spec fn class_tokens(v: Seq<char>) -> Seq<Seq<char>> {
    tokens_from(v, 0)
}

/// Compare two character sequences under the given policy: exactly, or up to
/// ASCII case folding.
pub open spec fn policy_eq(a: Seq<char>, b: Seq<char>, cs: crate::CaseSensitivity) -> bool {
    match cs {
        crate::CaseSensitivity::CaseSensitive => a == b,
        crate::CaseSensitivity::AsciiCaseInsensitive => seq_eq_fold(a, b),
    }
}

/// Some token of the class value `v` equals `name` under the policy.
pub open spec fn token_match(v: Seq<char>, name: Seq<char>, cs: crate::CaseSensitivity) -> bool {
    exists|i: int| 0 <= i < class_tokens(v).len() && policy_eq(class_tokens(v)[i], name, cs)
}

fn skip_ws_exec(s: &str, i: usize) -> (r: usize)
    requires
        i <= s@.len(),
    ensures
        i <= r <= s@.len(),
        r as int == skip_ws(s@, i as int),
    decreases s@.len() - i,
{
    let n = s.unicode_len();
    if i >= n {
        n
    } else if is_selector_whitespace(s.get_char(i)) {
        skip_ws_exec(s, i + 1)
    } else {
        i
    }
}

fn token_end_exec(s: &str, i: usize) -> (r: usize)
    requires
        i <= s@.len(),
    ensures
        i <= r <= s@.len(),
        r as int == token_end(s@, i as int),
    decreases s@.len() - i,
{
    let n = s.unicode_len();
    if i >= n {
        n
    } else if !is_selector_whitespace(s.get_char(i)) {
        token_end_exec(s, i + 1)
    } else {
        i
    }
}

/// The view of each string in a list.
pub open spec fn views_of(ts: Seq<String>) -> Seq<Seq<char>> {
    ts.map_values(|t: String| t@)
}

/// Split a class attribute value into its whitespace-separated, non-empty
/// tokens, in order.
pub fn class_token_list(s: &str) -> (r: Vec<String>)
    ensures
        views_of(r@) == class_tokens(s@),
{
    let n = s.unicode_len();
    let mut out: Vec<String> = Vec::new();
    let mut i: usize = 0;
    loop
        invariant
            n == s@.len(),
            0 <= i <= n,
            views_of(out@) + tokens_from(s@, i as int) == class_tokens(s@),
        ensures
            views_of(out@) == class_tokens(s@),
        decreases n - i,
    {
        let st = skip_ws_exec(s, i);
        if st >= n {
            proof {
                assert(tokens_from(s@, i as int) =~= Seq::<Seq<char>>::empty());
                assert(views_of(out@) =~= views_of(out@) + tokens_from(s@, i as int));
            }
            break ;
        }
        proof {
            lemma_skip_ws(s@, i as int);
        }
        let e = token_end_exec(s, st);
        let t = String::from_str(s.substring_char(st, e));
        proof {
            lemma_token_end(s@, st as int);
            assert(tokens_from(s@, i as int) == seq![s@.subrange(st as int, e as int)]
                + tokens_from(s@, e as int));
            assert(views_of(out@.push(t)) + tokens_from(s@, e as int) =~= class_tokens(s@));
        }
        out.push(t);
        i = e;
    }
    out
}

/// Compare two string slices under the given policy.
pub fn policy_eq_exec(a: &str, b: &str, cs: crate::CaseSensitivity) -> (r: bool)
    ensures
        r == policy_eq(a@, b@, cs),
{
    match cs {
        crate::CaseSensitivity::CaseSensitive => str_eq(a, b),
        crate::CaseSensitivity::AsciiCaseInsensitive => str_eq_fold(a, b),
    }
}

/// Scan the tokens of the class value `v` for one equal to `name` under the
/// given policy.
pub fn match_tokens(v: &str, name: &str, cs: crate::CaseSensitivity) -> (r: bool)
    ensures
        r == token_match(v@, name@, cs),
{
    let toks = class_token_list(v);
    let mut idx: usize = 0;
    proof {
        assert(views_of(toks@).len() == toks@.len());
    }
    while idx < toks.len()
        invariant
            views_of(toks@) == class_tokens(v@),
            toks@.len() == class_tokens(v@).len(),
            0 <= idx <= toks@.len(),
            forall|m: int| 0 <= m < idx ==> !policy_eq(class_tokens(v@)[m], name@, cs),
        decreases toks@.len() - idx,
    {
        let hit = policy_eq_exec(toks[idx].as_str(), name, cs);
        proof {
            assert(class_tokens(v@)[idx as int] == toks@[idx as int]@);
        }
        if hit {
            return true;
        }
        idx = idx + 1;
    }
    false
}

/// A selector-whitespace character stands strictly between two characters
/// that trimming would not remove.
pub open spec fn has_inner_sel_ws(v: Seq<char>) -> bool {
    exists|i: int, j: int, k: int|
        0 <= i < j < k < v.len() && !is_uni_ws(v[i]) && is_sel_ws(v[j]) && !is_uni_ws(v[k])
}

/// The class value holds a single token once trimmed: no separator character
/// survives inside it.
pub open spec fn is_single(v: Seq<char>) -> bool {
    !has_inner_sel_ws(v)
}

/// Decide `is_single` for a string slice.
pub fn check_single(v: &str) -> (r: bool)
    ensures
        r == is_single(v@),
{
    let n = v.unicode_len();
    let mut lo: usize = 0;
    while lo < n && is_unicode_whitespace(v.get_char(lo))
        invariant
            n == v@.len(),
            0 <= lo <= n,
            forall|m: int| 0 <= m < lo ==> is_uni_ws(v@[m]),
        decreases n - lo,
    {
        lo = lo + 1;
    }
    if lo >= n {
        // every character is trimmed away, so no witness triple exists
        proof {
            assert(!has_inner_sel_ws(v@)) by {
                if has_inner_sel_ws(v@) {
                    let (i, j, k): (int, int, int) = choose|i: int, j: int, k: int|
                        0 <= i < j < k < v@.len() && !is_uni_ws(v@[i]) && is_sel_ws(v@[j])
                            && !is_uni_ws(v@[k]);
                    assert(is_uni_ws(v@[i]));
                }
            }
        }
        return true;
    }
    let mut hi: usize = n - 1;
    while hi > lo && is_unicode_whitespace(v.get_char(hi))
        invariant
            n == v@.len(),
            0 <= lo <= hi < n,
            !is_uni_ws(v@[lo as int]),
            forall|m: int| 0 <= m < lo ==> is_uni_ws(v@[m]),
            forall|m: int| hi < m < n ==> is_uni_ws(v@[m]),
        decreases hi,
    {
        hi = hi - 1;
    }
    assert(!is_uni_ws(v@[hi as int]));
    let mut j: usize = lo + 1;
    while j < hi
        invariant
            n == v@.len(),
            0 <= lo <= hi < n,
            lo + 1 <= j,
            j <= hi || j == lo + 1,
            !is_uni_ws(v@[lo as int]),
            !is_uni_ws(v@[hi as int]),
            forall|m: int| 0 <= m < lo ==> is_uni_ws(v@[m]),
            forall|m: int| hi < m < n ==> is_uni_ws(v@[m]),
            forall|m: int| lo < m < j ==> !is_sel_ws(v@[m]),
        decreases hi - j,
    {
        if is_selector_whitespace(v.get_char(j)) {
            proof {
                assert(has_inner_sel_ws(v@));
            }
            return false;
        }
        j = j + 1;
    }
    proof {
        assert(!has_inner_sel_ws(v@)) by {
            if has_inner_sel_ws(v@) {
                let (i, j2, k): (int, int, int) = choose|i: int, j2: int, k: int|
                    0 <= i < j2 < k < v@.len() && !is_uni_ws(v@[i]) && is_sel_ws(v@[j2])
                        && !is_uni_ws(v@[k]);
                // a selector separator is unicode whitespace, so it sits
                // strictly between lo and hi, where the scan saw none
                assert(is_uni_ws(v@[j2]));
                assert(lo <= i);
                assert(k <= hi);
                assert(lo < j2 < hi);
            }
        }
    }
    true
}

} // verus!
