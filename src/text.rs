//! Small verified helpers on text.
use vstd::prelude::*;
use vstd::string::*;

verus! {

/// Whether two strings hold the same characters.
pub fn same_text(a: &str, b: &str) -> (r: bool)
    ensures
        r == (a@ == b@),
{
    let n = a.unicode_len();
    let m = b.unicode_len();
    if n != m {
        return false;
    }
    let mut i: usize = 0;
    while i < n
        invariant
            n == a@.len(),
            m == b@.len(),
            n == m,
            i <= n,
            forall|j: int| 0 <= j < i ==> a@[j] == b@[j],
        decreases n - i,
    {
        if a.get_char(i) != b.get_char(i) {
            return false;
        }
        i = i + 1;
    }
    assert(a@ =~= b@);
    true
}

/// `s` has the separator `::` at `i`.
pub open spec fn is_separator_at(s: Seq<char>, i: int) -> bool {
    0 <= i && i + 1 < s.len() && s[i] == ':' && s[i + 1] == ':'
}

/// `i` is where the first separator of `s` stands.
pub open spec fn is_first_separator(s: Seq<char>, i: int) -> bool {
    is_separator_at(s, i) && forall|j: int| 0 <= j < i ==> !is_separator_at(s, j)
}

/// `s` cut at its first `::` into what stands before and after it.
pub open spec fn split_once(s: Seq<char>) -> Option<(Seq<char>, Seq<char>)> {
    if exists|i: int| is_first_separator(s, i) {
        let i = choose|i: int| is_first_separator(s, i);
        Some((s.subrange(0, i), s.subrange(i + 2, s.len() as int)))
    } else {
        None
    }
}

proof fn lemma_first_separator_unique(s: Seq<char>, i: int, k: int)
    requires
        is_first_separator(s, i),
        is_first_separator(s, k),
    ensures
        i == k,
{
    if i < k {
        assert(!is_separator_at(s, i));
    } else if k < i {
        assert(!is_separator_at(s, k));
    }
}

/// Cuts `s` at its first `::`.
pub fn split_at_separator(s: &str) -> (r: Option<(String, String)>)
    ensures
        r is None <==> split_once(s@) is None,
        r matches Some((a, b)) ==> split_once(s@) == Some((a@, b@)),
{
    let n = s.unicode_len();
    let mut i: usize = 0;
    while n >= 2 && i <= n - 2
        invariant
            n == s@.len(),
            i <= n,
            forall|j: int| 0 <= j < i ==> !is_separator_at(s@, j),
        decreases n - i,
    {
        if s.get_char(i) == ':' && s.get_char(i + 1) == ':' {
            assert(is_first_separator(s@, i as int));
            let a = s.substring_char(0, i);
            let b = s.substring_char(i + 2, n);
            proof {
                let k = choose|k: int| is_first_separator(s@, k);
                lemma_first_separator_unique(s@, i as int, k);
            }
            return Some((a.to_owned(), b.to_owned()));
        }
        i = i + 1;
    }
    assert forall|k: int| !is_first_separator(s@, k) by {
        if is_first_separator(s@, k) {
            assert(!is_separator_at(s@, k));
        }
    }
    None
}

} // verus!
