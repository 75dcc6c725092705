//! Small verified helpers shared across the crate: first-occurrence search
//! in a sequence, and character-level string operations.

use vstd::prelude::*;

verus! {

/// Index of the first occurrence of `c` in `s`, if any.
pub open spec fn find_idx<T>(s: Seq<T>, c: T) -> Option<int>
    decreases s.len(),
{
    if s.len() == 0 {
        None
    } else if s[0] == c {
        Some(0)
    } else {
        match find_idx(s.skip(1), c) {
            Some(i) => Some(i + 1),
            None => None,
        }
    }
}

/// `find_idx` returns the first occurrence: the element at the returned
/// index matches and nothing before it does; `None` means no occurrence.
pub proof fn lemma_find_idx<T>(s: Seq<T>, c: T)
    ensures
        match find_idx(s, c) {
            Some(i) => 0 <= i < s.len() && s[i] == c && (forall|j: int| 0 <= j < i ==> s[j] != c),
            None => forall|j: int| 0 <= j < s.len() ==> s[j] != c,
        },
    decreases s.len(),
{
    if s.len() != 0 && s[0] != c {
        lemma_find_idx(s.skip(1), c);
        assert(forall|j: int| 0 <= j < s.skip(1).len() ==> s.skip(1)[j] == s[j + 1]);
        match find_idx(s.skip(1), c) {
            Some(i) => {
                assert(s[i + 1] == s.skip(1)[i]);
                assert(forall|j: int| 0 <= j < i + 1 ==> s[j] != c) by {
                    assert(forall|j: int| 1 <= j < i + 1 ==> s[j] == s.skip(1)[j - 1]);
                }
            },
            None => {
                assert(forall|j: int| 1 <= j < s.len() ==> s[j] == s.skip(1)[j - 1]);
            },
        }
    }
}

/// Converse direction: if `c` first occurs at `i`, then `find_idx` says so.
pub proof fn lemma_find_idx_at<T>(s: Seq<T>, c: T, i: int)
    requires
        0 <= i < s.len(),
        s[i] == c,
        forall|j: int| 0 <= j < i ==> s[j] != c,
    ensures
        find_idx(s, c) == Some(i),
{
    lemma_find_idx(s, c);
    match find_idx(s, c) {
        Some(k) => {
            if k < i {
                assert(s[k] == c);
                assert(false);
            } else if k > i {
                assert(s[i] != c);
                assert(false);
            }
        },
        None => {
            assert(s[i] != c);
            assert(false);
        },
    }
}

/// If `c` does not occur in `s`, `find_idx` returns `None`.
pub proof fn lemma_find_idx_none<T>(s: Seq<T>, c: T)
    requires
        forall|j: int| 0 <= j < s.len() ==> s[j] != c,
    ensures
        find_idx(s, c) == None::<int>,
{
    lemma_find_idx(s, c);
    match find_idx(s, c) {
        Some(k) => {
            assert(s[k] != c);
            assert(false);
        },
        None => {},
    }
}

/// First occurrence of `c` in `s`, as executable code over characters.
pub fn find_ch(s: &str, c: char) -> (r: Option<usize>)
    ensures
        match r {
            Some(i) => find_idx(s@, c) == Some(i as int),
            None => find_idx(s@, c) == None::<int>,
        },
{
    let n: usize = s.unicode_len();
    let mut j: usize = 0;
    while j < n
        invariant
            0 <= j <= n,
            n == s@.len(),
            forall|k: int| 0 <= k < j ==> s@[k] != c,
        decreases n - j,
    {
        if s.get_char(j) == c {
            proof {
                lemma_find_idx_at(s@, c, j as int);
            }
            return Some(j);
        }
        j = j + 1;
    }
    proof {
        lemma_find_idx_none(s@, c);
    }
    None
}

/// Character-wise string equality, proved rather than trusted.
pub fn str_eq(a: &str, b: &str) -> (r: bool)
    ensures
        r == (a@ == b@),
{
    let na: usize = a.unicode_len();
    let nb: usize = b.unicode_len();
    if na != nb {
        assert(a@ =~= b@ ==> a@.len() == b@.len());
        return false;
    }
    let mut j: usize = 0;
    while j < na
        invariant
            0 <= j <= na,
            na == a@.len(),
            na == b@.len(),
            forall|k: int| 0 <= k < j ==> a@[k] == b@[k],
        decreases na - j,
    {
        if a.get_char(j) != b.get_char(j) {
            assert(a@ != b@);
            return false;
        }
        j = j + 1;
    }
    assert(a@ =~= b@);
    true
}

/// ASCII-lowercased counterpart of a character.
pub open spec fn lower_char(c: char) -> char {
    if 'A' <= c && c <= 'Z' {
        (((c as u8) + 32) as char)
    } else {
        c
    }
}

/// ASCII-lowercased counterpart of a character sequence.
pub open spec fn lower_seq(s: Seq<char>) -> Seq<char> {
    s.map_values(|c: char| lower_char(c))
}

/// ASCII-lowercase a string, character by character.
pub fn to_lower(s: &str) -> (r: String)
    ensures
        r@ == lower_seq(s@),
{
    let n: usize = s.unicode_len();
    let mut out: Vec<char> = Vec::new();
    let mut j: usize = 0;
    while j < n
        invariant
            0 <= j <= n,
            n == s@.len(),
            out@ == lower_seq(s@).take(j as int),
        decreases n - j,
    {
        let c = s.get_char(j);
        let lc: char = if 'A' <= c && c <= 'Z' {
            (((c as u8) + 32) as char)
        } else {
            c
        };
        out.push(lc);
        proof {
            assert(lower_seq(s@).take(j + 1 as int) =~= lower_seq(s@).take(j as int).push(lc));
        }
        j = j + 1;
    }
    proof {
        assert(lower_seq(s@).take(n as int) =~= lower_seq(s@));
    }
    chars_to_string(&out)
}

/// The element-wise deep view of a sequence.
pub open spec fn deep_of<T: DeepView>(s: Seq<T>) -> Seq<T::V> {
    Seq::new(s.len(), |i: int| s[i].deep_view())
}

pub proof fn lemma_deep_push<T: DeepView>(s: Seq<T>, x: T)
    ensures
        deep_of(s.push(x)) =~= deep_of(s).push(x.deep_view()),
{
    assert forall|k: int| 0 <= k < s.len() + 1 implies deep_of(s.push(x))[k] == deep_of(s).push(
        x.deep_view(),
    )[k] by {
        if k < s.len() {
            assert(s.push(x)[k] == s[k]);
        } else {
            assert(s.push(x)[k] == x);
        }
    }
}

pub proof fn lemma_deep_insert<T: DeepView>(s: Seq<T>, i: int, x: T)
    requires
        0 <= i <= s.len(),
    ensures
        deep_of(s.insert(i, x)) =~= deep_of(s).insert(i, x.deep_view()),
{
    assert forall|k: int| 0 <= k < s.len() + 1 implies deep_of(s.insert(i, x))[k] == deep_of(
        s,
    ).insert(i, x.deep_view())[k] by {
        if k < i {
            assert(s.insert(i, x)[k] == s[k]);
        } else if k == i {
            assert(s.insert(i, x)[k] == x);
        } else {
            assert(s.insert(i, x)[k] == s[k - 1]);
        }
    }
}

pub proof fn lemma_deep_remove<T: DeepView>(s: Seq<T>, i: int)
    requires
        0 <= i < s.len(),
    ensures
        deep_of(s.remove(i)) =~= deep_of(s).remove(i),
{
    assert forall|k: int| 0 <= k < s.len() - 1 implies deep_of(s.remove(i))[k] == deep_of(
        s,
    ).remove(i)[k] by {
        if k < i {
            assert(s.remove(i)[k] == s[k]);
        } else {
            assert(s.remove(i)[k] == s[k + 1]);
        }
    }
}

/// Relies on `core::iter::Iterator::collect` building a `String` from its
/// characters in order.
#[verifier::external_body]
pub fn chars_to_string(v: &Vec<char>) -> (r: String)
    ensures
        r@ == v@,
{
    v.iter().collect()
}

} // verus!
