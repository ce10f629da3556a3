//! Line scanning: substring and prefix tests, numeric-field capture
//! (a letter followed by a run of sign, digit and point characters),
//! replacement of every such field, and whitespace trimming.

use vstd::prelude::*;
use crate::num::is_digit;

verus! {

/// Is `c` part of a captured numeric field (sign, digit or point)?
pub open spec fn is_cls(c: char) -> bool {
    c == '-' || c == '.' || is_digit(c)
}

/// Is `c` whitespace (the Unicode white-space characters)?
pub open spec fn is_ws(c: char) -> bool {
    let u = c as u32;
    (9 <= u <= 13) || u == 0x20 || u == 0x85 || u == 0xA0 || u == 0x1680 || (0x2000 <= u
        <= 0x200A) || u == 0x2028 || u == 0x2029 || u == 0x202F || u == 0x205F || u == 0x3000
}

/// Does `p` occur in `s` starting at position `i`?
pub open spec fn has_sub_at(s: Seq<char>, p: Seq<char>, i: int) -> bool {
    0 <= i && i + p.len() <= s.len() && s.subrange(i, i + p.len() as int) == p
}

/// Does `p` occur anywhere in `s`?
pub open spec fn contains_sub(s: Seq<char>, p: Seq<char>) -> bool {
    exists|i: int| has_sub_at(s, p, i)
}

/// Does `s` start with `p`?
pub open spec fn starts_with(s: Seq<char>, p: Seq<char>) -> bool {
    has_sub_at(s, p, 0)
}

/// Does `s` contain the character `c`?
pub open spec fn contains_char(s: Seq<char>, c: char) -> bool {
    exists|i: int| 0 <= i < s.len() && s[i] == c
}

/// A numeric field headed by `l` begins at `i`: the letter, then at least
/// one field character.
pub open spec fn match_at(s: Seq<char>, l: char, i: int) -> bool {
    0 <= i && i + 1 < s.len() && s[i] == l && is_cls(s[i + 1])
}

/// Position of the leftmost field headed by `l` at or after `i`.
pub open spec fn find_match(s: Seq<char>, l: char, i: int) -> Option<int>
    decreases s.len() - i,
{
    if i < 0 || i >= s.len() {
        None
    } else if match_at(s, l, i) {
        Some(i)
    } else {
        find_match(s, l, i + 1)
    }
}

/// First position at or after `j` holding no field character.
pub open spec fn run_end(s: Seq<char>, j: int) -> int
    decreases s.len() - j,
{
    if 0 <= j < s.len() && is_cls(s[j]) {
        run_end(s, j + 1)
    } else {
        j
    }
}

/// The text of the leftmost numeric field headed by `l`, without the
/// letter itself.
pub open spec fn capture(s: Seq<char>, l: char) -> Option<Seq<char>> {
    match find_match(s, l, 0) {
        Some(m) => Some(s.subrange(m + 1, run_end(s, m + 1))),
        None => None,
    }
}

/// Scan of `s` from `i` in which every field headed by `l` is replaced by
/// `repl`; `sk` tells whether the scan stands inside a replaced field's
/// run of field characters.
pub open spec fn rep(s: Seq<char>, l: char, repl: Seq<char>, i: int, sk: bool) -> Seq<char>
    decreases s.len() - i,
{
    if i < 0 || i >= s.len() {
        Seq::empty()
    } else if sk && is_cls(s[i]) {
        rep(s, l, repl, i + 1, true)
    } else if match_at(s, l, i) {
        repl + rep(s, l, repl, i + 2, true)
    } else {
        seq![s[i]] + rep(s, l, repl, i + 1, false)
    }
}

/// `s` with every numeric field headed by `l` replaced by `repl`.
pub open spec fn replace_all(s: Seq<char>, l: char, repl: Seq<char>) -> Seq<char> {
    rep(s, l, repl, 0, false)
}

/// Position of the first character that is not whitespace.
pub open spec fn trim_start_idx(s: Seq<char>, i: int) -> int
    decreases s.len() - i,
{
    if 0 <= i < s.len() && is_ws(s[i]) {
        trim_start_idx(s, i + 1)
    } else {
        i
    }
}

/// Position after the last character that is not whitespace.
pub open spec fn trim_end_idx(s: Seq<char>, j: int) -> int
    decreases j,
{
    if 0 < j <= s.len() && is_ws(s[j - 1]) {
        trim_end_idx(s, j - 1)
    } else {
        j
    }
}

/// `s` without leading and trailing whitespace.
pub open spec fn trim_ws(s: Seq<char>) -> Seq<char> {
    let a = trim_start_idx(s, 0);
    let b = trim_end_idx(s, s.len() as int);
    if a <= b {
        s.subrange(a, b)
    } else {
        Seq::empty()
    }
}

fn is_cls_exec(c: char) -> (b: bool)
    ensures
        b == is_cls(c),
{
    let u = c as u32;
    c == '-' || c == '.' || (48 <= u && u <= 57)
}

fn is_ws_exec(c: char) -> (b: bool)
    ensures
        b == is_ws(c),
{
    let u = c as u32;
    (9 <= u && u <= 13) || u == 0x20 || u == 0x85 || u == 0xA0 || u == 0x1680 || (0x2000 <= u
        && u <= 0x200A) || u == 0x2028 || u == 0x2029 || u == 0x202F || u == 0x205F || u == 0x3000
}

/// Does `p` occur in `s` at position `i`?
fn has_sub_at_exec(s: &str, p: &str, i: usize) -> (b: bool)
    requires
        i + p@.len() <= s@.len() <= usize::MAX,
    ensures
        b == has_sub_at(s@, p@, i as int),
{
    let m = p.unicode_len();
    let mut j: usize = 0;
    while j < m
        invariant
            j <= m,
            m == p@.len(),
            i + m <= s@.len() <= usize::MAX,
            forall|t: int| 0 <= t < j ==> s@[i + t] == p@[t],
        decreases m - j,
    {
        if s.get_char(i + j) != p.get_char(j) {
            proof {
                if has_sub_at(s@, p@, i as int) {
                    assert(s@.subrange(i as int, i + m)[j as int] == s@[i + j]);
                }
            }
            return false;
        }
        j = j + 1;
    }
    proof {
        assert(s@.subrange(i as int, i + m) =~= p@);
    }
    true
}

/// Does `p` occur anywhere in `s`?
pub fn contains_str(s: &str, p: &str) -> (b: bool)
    ensures
        b == contains_sub(s@, p@),
{
    let n = s.unicode_len();
    let m = p.unicode_len();
    if m > n {
        return false;
    }
    if m == 0 {
        proof {
            assert(s@.subrange(0, 0) =~= p@);
            assert(has_sub_at(s@, p@, 0));
        }
        return true;
    }
    let mut i: usize = 0;
    while i <= n - m
        invariant
            1 <= m <= n,
            n == s@.len(),
            m == p@.len(),
            i <= n - m + 1,
            forall|j: int| 0 <= j < i ==> !has_sub_at(s@, p@, j),
        decreases n - m + 1 - i,
    {
        if has_sub_at_exec(s, p, i) {
            return true;
        }
        i = i + 1;
    }
    false
}

/// Does `s` start with `p`?
pub fn starts_with_str(s: &str, p: &str) -> (b: bool)
    ensures
        b == starts_with(s@, p@),
{
    let n = s.unicode_len();
    let m = p.unicode_len();
    if m > n {
        return false;
    }
    has_sub_at_exec(s, p, 0)
}

/// Does `s` contain the character `c`?
pub fn contains_char_exec(s: &str, c: char) -> (b: bool)
    ensures
        b == contains_char(s@, c),
{
    let n = s.unicode_len();
    let mut i: usize = 0;
    while i < n
        invariant
            i <= n,
            n == s@.len(),
            forall|j: int| 0 <= j < i ==> s@[j] != c,
        decreases n - i,
    {
        if s.get_char(i) == c {
            return true;
        }
        i = i + 1;
    }
    false
}

/// Find the leftmost numeric field headed by `l`: the position of the
/// letter and the position just past the run of field characters.
pub fn find_capture(s: &str, l: char) -> (r: Option<(usize, usize)>)
    ensures
        match r {
            Some(me) => find_match(s@, l, 0) == Some(me.0 as int) && me.1 == run_end(
                s@,
                me.0 + 1,
            ) && me.0 + 1 < me.1 <= s@.len(),
            None => find_match(s@, l, 0) is None,
        },
{
    let n = s.unicode_len();
    let mut i: usize = 0;
    while i < n
        invariant
            n == s@.len(),
            i <= n,
            find_match(s@, l, 0) == find_match(s@, l, i as int),
        decreases n - i,
    {
        let c = s.get_char(i);
        if c == l && i + 1 < n && is_cls_exec(s.get_char(i + 1)) {
            let mut e: usize = i + 1;
            while e < n && is_cls_exec(s.get_char(e))
                invariant
                    n == s@.len(),
                    i + 1 <= e <= n,
                    run_end(s@, i + 1) == run_end(s@, e as int),
                decreases n - e,
            {
                e = e + 1;
            }
            proof {
                assert(run_end(s@, e as int) == e);
                assert(match_at(s@, l, i as int));
            }
            return Some((i, e));
        }
        i = i + 1;
    }
    None
}

/// `s` with every numeric field headed by `l` replaced by `repl`.
pub fn replace_all_str(s: &str, l: char, repl: &str) -> (r: String)
    ensures
        r@ == replace_all(s@, l, repl@),
{
    let n = s.unicode_len();
    let mut out = String::new();
    let mut i: usize = 0;
    let mut sk = false;
    while i < n
        invariant
            n == s@.len(),
            i <= n,
            replace_all(s@, l, repl@) == out@ + rep(s@, l, repl@, i as int, sk),
        decreases n - i,
    {
        let c = s.get_char(i);
        if sk && is_cls_exec(c) {
            i = i + 1;
        } else if c == l && i + 1 < n && is_cls_exec(s.get_char(i + 1)) {
            out.append(repl);
            proof {
                assert(match_at(s@, l, i as int));
                assert(out@ + rep(s@, l, repl@, i + 2, true) =~= replace_all(s@, l, repl@));
            }
            i = i + 2;
            sk = true;
        } else {
            let piece = s.substring_char(i, i + 1);
            out.append(piece);
            proof {
                assert(piece@ =~= seq![s@[i as int]]);
                assert(!match_at(s@, l, i as int));
                assert(out@ + rep(s@, l, repl@, i + 1, false) =~= replace_all(s@, l, repl@));
            }
            i = i + 1;
            sk = false;
        }
    }
    proof {
        assert(out@ + rep(s@, l, repl@, n as int, sk) =~= out@);
    }
    out
}

/// `s` without leading and trailing whitespace.
pub fn trim_str<'a>(s: &'a str) -> (r: &'a str)
    ensures
        r@ == trim_ws(s@),
{
    let n = s.unicode_len();
    let mut a: usize = 0;
    while a < n && is_ws_exec(s.get_char(a))
        invariant
            n == s@.len(),
            a <= n,
            trim_start_idx(s@, 0) == trim_start_idx(s@, a as int),
        decreases n - a,
    {
        a = a + 1;
    }
    proof {
        assert(trim_start_idx(s@, 0) == a);
    }
    let mut b: usize = n;
    while b > a && is_ws_exec(s.get_char(b - 1))
        invariant
            n == s@.len(),
            a <= b <= n,
            a == trim_start_idx(s@, 0),
            trim_end_idx(s@, n as int) == trim_end_idx(s@, b as int),
        decreases b,
    {
        b = b - 1;
    }
    let r = s.substring_char(a, b);
    proof {
        if b > a {
            assert(trim_end_idx(s@, b as int) == b);
            assert(r@ == trim_ws(s@));
        } else {
            lemma_trim_end_at_most(s@, a as int);
            assert(r@ =~= Seq::<char>::empty());
            if a == trim_end_idx(s@, n as int) {
                assert(trim_ws(s@) =~= Seq::<char>::empty());
            } else {
                assert(trim_ws(s@) == Seq::<char>::empty());
            }
        }
    }
    r
}

/// Trimming from the end never moves forward.
proof fn lemma_trim_end_at_most(s: Seq<char>, j: int)
    requires
        0 <= j <= s.len(),
    ensures
        trim_end_idx(s, j) <= j,
    decreases j,
{
    if 0 < j <= s.len() && is_ws(s[j - 1]) {
        lemma_trim_end_at_most(s, (j - 1) as int);
    }
}

} // verus!
