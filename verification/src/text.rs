//! Comparing names without regard to ASCII case.

use vstd::prelude::*;

verus! {

/// `c` in lower case, if it is an ASCII letter.
pub open spec fn fold_char(c: char) -> char {
    if 'A' <= c && c <= 'Z' {
        ((c as u32) + 32) as char
    } else {
        c
    }
}

/// Whether two names are the same up to ASCII case.
pub open spec fn same_name(a: Seq<char>, b: Seq<char>) -> bool {
    a.len() == b.len() && forall|i: int|
        0 <= i < a.len() ==> fold_char(#[trigger] a[i]) == fold_char(b[i])
}

/// Whether `a` and `b` are the same character up to ASCII case.
fn same_char(a: char, b: char) -> (r: bool)
    ensures
        r == (fold_char(a) == fold_char(b)),
{
    fold(a) == fold(b)
}

/// `c` in lower case, if it is an ASCII letter.
fn fold(c: char) -> (r: u32)
    ensures
        r == fold_char(c) as u32,
{
    if 'A' <= c && c <= 'Z' {
        (c as u32) + 32
    } else {
        c as u32
    }
}

/// Whether two names are the same up to ASCII case.
pub fn eq_ignore_ascii_case(a: &str, b: &str) -> (r: bool)
    ensures
        r == same_name(a@, b@),
{
    let n: usize = a.unicode_len();
    if n != b.unicode_len() {
        return false;
    }
    let mut i: usize = 0;
    while i < n
        invariant
            n == a@.len(),
            n == b@.len(),
            i <= n,
            forall|j: int| 0 <= j < i ==> fold_char(#[trigger] a@[j]) == fold_char(b@[j]),
        decreases n - i,
    {
        if !same_char(a.get_char(i), b.get_char(i)) {
            return false;
        }
        i = i + 1;
    }
    true
}

/// Whether two names are the same, letter for letter.
pub fn eq_exact(a: &str, b: &str) -> (r: bool)
    ensures
        r == (a@ == b@),
{
    let n: usize = a.unicode_len();
    if n != b.unicode_len() {
        return false;
    }
    let mut i: usize = 0;
    while i < n
        invariant
            n == a@.len(),
            n == b@.len(),
            i <= n,
            forall|j: int| 0 <= j < i ==> a@[j] == b@[j],
        decreases n - i,
    {
        if a.get_char(i) != b.get_char(i) {
            return false;
        }
        i = i + 1;
    }
    assert(a@ =~= b@);
    true
}

/// Whether `c` is white space.
pub open spec fn is_space(c: char) -> bool {
    ||| '\u{9}' <= c <= '\u{d}'
    ||| c == '\u{20}'
    ||| c == '\u{85}'
    ||| c == '\u{a0}'
    ||| c == '\u{1680}'
    ||| '\u{2000}' <= c <= '\u{200a}'
    ||| c == '\u{2028}'
    ||| c == '\u{2029}'
    ||| c == '\u{202f}'
    ||| c == '\u{205f}'
    ||| c == '\u{3000}'
}

/// Whether a name holds nothing but white space.
pub open spec fn blank(s: Seq<char>) -> bool {
    forall|i: int| 0 <= i < s.len() ==> is_space(#[trigger] s[i])
}

/// Whether a name holds nothing but white space.
pub fn is_blank(s: &str) -> (r: bool)
    ensures
        r == blank(s@),
{
    let n: usize = s.unicode_len();
    let mut i: usize = 0;
    while i < n
        invariant
            n == s@.len(),
            i <= n,
            forall|j: int| 0 <= j < i ==> is_space(#[trigger] s@[j]),
        decreases n - i,
    {
        let c = s.get_char(i);
        let space = ('\u{9}' <= c && c <= '\u{d}') || c == '\u{20}' || c == '\u{85}' || c
            == '\u{a0}' || c == '\u{1680}' || ('\u{2000}' <= c && c <= '\u{200a}') || c
            == '\u{2028}' || c == '\u{2029}' || c == '\u{202f}' || c == '\u{205f}' || c
            == '\u{3000}';
        if !space {
            assert(!is_space(s@[i as int]));
            return false;
        }
        i = i + 1;
    }
    true
}

/// Being the same up to case is an equivalence.
pub proof fn lemma_same_name_equivalence(a: Seq<char>, b: Seq<char>, c: Seq<char>)
    ensures
        same_name(a, a),
        same_name(a, b) ==> same_name(b, a),
        same_name(a, b) && same_name(b, c) ==> same_name(a, c),
{
    if same_name(a, b) {
        assert forall|i: int| 0 <= i < b.len() implies fold_char(#[trigger] b[i]) == fold_char(
            a[i],
        ) by {
            assert(fold_char(a[i]) == fold_char(b[i]));
        }
        if same_name(b, c) {
            assert forall|i: int| 0 <= i < a.len() implies fold_char(#[trigger] a[i]) == fold_char(
                c[i],
            ) by {
                assert(fold_char(b[i]) == fold_char(c[i]));
            }
        }
    }
}

} // verus!
