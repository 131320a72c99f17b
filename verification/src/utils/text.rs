//! Searching and rewriting character sequences.

use vstd::prelude::*;

verus! {

/// `pat` occurs in `s` starting at position `i`.
pub open spec fn occurs_at(s: Seq<char>, pat: Seq<char>, i: int) -> bool {
    &&& 0 <= i
    &&& i + pat.len() <= s.len()
    &&& s.subrange(i, i + pat.len()) == pat
}

/// `pat` occurs somewhere in `s`.
pub open spec fn contains_seq(s: Seq<char>, pat: Seq<char>) -> bool {
    exists|i: int| occurs_at(s, pat, i)
}

/// Position of the first `c` in `s` at or after `i`, or `s.len()` when there is none.
pub open spec fn first_index_from(s: Seq<char>, c: char, i: int) -> int
    decreases s.len() - i,
{
    if i < 0 || i >= s.len() {
        s.len() as int
    } else if s[i] == c {
        i
    } else {
        first_index_from(s, c, i + 1)
    }
}

/// Position of the first `c` in `s`, or `s.len()` when `c` does not occur.
pub open spec fn first_index(s: Seq<char>, c: char) -> int {
    first_index_from(s, c, 0)
}

/// Position of the last `c` in `s` before position `i`, or `-1` when there is none.
pub open spec fn last_index_before(s: Seq<char>, c: char, i: int) -> int
    decreases i,
{
    if i <= 0 || i > s.len() {
        -1
    } else if s[i - 1] == c {
        i - 1
    } else {
        last_index_before(s, c, i - 1)
    }
}

/// Position of the last `c` in `s`, or `-1` when `c` does not occur.
pub open spec fn last_index(s: Seq<char>, c: char) -> int {
    last_index_before(s, c, s.len() as int)
}

/// The text of `s` from position `i` on, with every occurrence of `from` replaced by `to`,
/// occurrences found left to right and not overlapping.
pub open spec fn replace_from(s: Seq<char>, from: Seq<char>, to: Seq<char>, i: int) -> Seq<char>
    decreases s.len() - i,
{
    if i < 0 || i >= s.len() {
        Seq::empty()
    } else if from.len() > 0 && occurs_at(s, from, i) {
        to + replace_from(s, from, to, i + from.len())
    } else {
        seq![s[i]] + replace_from(s, from, to, i + 1)
    }
}

/// `s` with every occurrence of `from` replaced by `to`, as `str::replace` does.
pub open spec fn replace_all(s: Seq<char>, from: Seq<char>, to: Seq<char>) -> Seq<char> {
    replace_from(s, from, to, 0)
}

proof fn lemma_replace_from_absent(s: Seq<char>, from: Seq<char>, to: Seq<char>, i: int)
    requires
        0 <= i <= s.len(),
        !contains_seq(s, from),
    ensures
        replace_from(s, from, to, i) == s.skip(i),
    decreases s.len() - i,
{
    if i < s.len() {
        assert(!occurs_at(s, from, i));
        lemma_replace_from_absent(s, from, to, i + 1);
        assert(s.skip(i) =~= seq![s[i]] + s.skip(i + 1));
    } else {
        assert(s.skip(i) =~= Seq::<char>::empty());
    }
}

/// Replacing a text that does not occur leaves the text as it was.
pub proof fn lemma_replace_absent(s: Seq<char>, from: Seq<char>, to: Seq<char>)
    requires
        !contains_seq(s, from),
    ensures
        replace_all(s, from, to) == s,
{
    lemma_replace_from_absent(s, from, to, 0);
    assert(s.skip(0) =~= s);
}

proof fn lemma_first_index_from_bounds(s: Seq<char>, c: char, i: int)
    requires
        0 <= i <= s.len(),
    ensures
        i <= first_index_from(s, c, i) <= s.len(),
        first_index_from(s, c, i) < s.len() ==> s[first_index_from(s, c, i)] == c,
        forall|j: int| i <= j < first_index_from(s, c, i) ==> s[j] != c,
    decreases s.len() - i,
{
    if i < s.len() && s[i] != c {
        lemma_first_index_from_bounds(s, c, i + 1);
    }
}

/// What `first_index` is: the first occurrence of `c`, or the length.
pub proof fn lemma_first_index(s: Seq<char>, c: char)
    ensures
        0 <= first_index(s, c) <= s.len(),
        first_index(s, c) < s.len() ==> s[first_index(s, c)] == c,
        forall|j: int| 0 <= j < first_index(s, c) ==> s[j] != c,
{
    lemma_first_index_from_bounds(s, c, 0);
}

proof fn lemma_last_index_before_bounds(s: Seq<char>, c: char, i: int)
    requires
        0 <= i <= s.len(),
    ensures
        -1 <= last_index_before(s, c, i) < i,
        last_index_before(s, c, i) >= 0 ==> s[last_index_before(s, c, i)] == c,
        forall|j: int| last_index_before(s, c, i) < j < i ==> s[j] != c,
    decreases i,
{
    if i > 0 && s[i - 1] != c {
        lemma_last_index_before_bounds(s, c, i - 1);
    }
}

/// What `last_index` is: the last occurrence of `c`, or `-1`.
pub proof fn lemma_last_index(s: Seq<char>, c: char)
    ensures
        -1 <= last_index(s, c) < s.len(),
        last_index(s, c) >= 0 ==> s[last_index(s, c)] == c,
        forall|j: int| last_index(s, c) < j < s.len() ==> s[j] != c,
{
    lemma_last_index_before_bounds(s, c, s.len() as int);
}

/// The characters of `s`, in order.
pub fn chars_of(s: &str) -> (v: Vec<char>)
    ensures
        v@ == s@,
{
    let n = s.unicode_len();
    let mut v: Vec<char> = Vec::new();
    let mut i: usize = 0;
    while i < n
        invariant
            n == s@.len(),
            i <= n,
            v@ == s@.take(i as int),
        decreases n - i,
    {
        v.push(s.get_char(i));
        i = i + 1;
        assert(v@ =~= s@.take(i as int));
    }
    assert(v@ =~= s@);
    v
}

/// Whether `pat` occurs in `s` at position `i`.
fn matches_at(s: &Vec<char>, pat: &Vec<char>, i: usize) -> (r: bool)
    ensures
        r == occurs_at(s@, pat@, i as int),
{
    if i > s.len() || pat.len() > s.len() - i {
        return false;
    }
    let mut k: usize = 0;
    while k < pat.len()
        invariant
            i + pat@.len() <= s@.len(),
            s@.len() <= usize::MAX,
            k <= pat@.len(),
            forall|j: int| 0 <= j < k ==> s@[i + j] == pat@[j],
        decreases pat@.len() - k,
    {
        if s[i + k] != pat[k] {
            assert(s@.subrange(i as int, i + pat@.len())[k as int] != pat@[k as int]);
            return false;
        }
        k = k + 1;
    }
    assert(s@.subrange(i as int, i + pat@.len()) =~= pat@);
    true
}

/// Whether `a` and `b` hold the same text.
pub fn same_text(a: &str, b: &str) -> (r: bool)
    ensures
        r == (a@ == b@),
{
    let av = chars_of(a);
    let bv = chars_of(b);
    if av.len() != bv.len() {
        return false;
    }
    let mut i: usize = 0;
    while i < av.len()
        invariant
            av@ == a@,
            bv@ == b@,
            av@.len() == bv@.len(),
            i <= av@.len(),
            forall|j: int| 0 <= j < i ==> av@[j] == bv@[j],
        decreases av@.len() - i,
    {
        if av[i] != bv[i] {
            return false;
        }
        i = i + 1;
    }
    assert(av@ =~= bv@);
    true
}

/// Whether `pat` occurs in `s`, as `str::contains` answers.
pub fn contains(s: &str, pat: &str) -> (r: bool)
    ensures
        r == contains_seq(s@, pat@),
{
    let sv = chars_of(s);
    let pv = chars_of(pat);
    if pv.len() > sv.len() {
        assert forall|i: int| !occurs_at(s@, pat@, i) by {}
        return false;
    }
    let last = sv.len() - pv.len();
    let mut i: usize = 0;
    while i < last
        invariant
            sv@ == s@,
            pv@ == pat@,
            last == sv@.len() - pv@.len(),
            i <= last,
            forall|j: int| 0 <= j < i ==> !occurs_at(s@, pat@, j),
        decreases last - i,
    {
        if matches_at(&sv, &pv, i) {
            return true;
        }
        i = i + 1;
    }
    if matches_at(&sv, &pv, last) {
        return true;
    }
    assert forall|j: int| !occurs_at(s@, pat@, j) by {}
    false
}

/// Position of the first `c` in `s`, or its length when `c` does not occur.
pub fn find_char(s: &Vec<char>, c: char) -> (r: usize)
    ensures
        r == first_index(s@, c),
{
    let mut i: usize = 0;
    while i < s.len()
        invariant
            i <= s@.len(),
            first_index_from(s@, c, i as int) == first_index(s@, c),
        decreases s@.len() - i,
    {
        if s[i] == c {
            return i;
        }
        i = i + 1;
    }
    i
}

/// Position of the last `c` in `s`, if it occurs.
pub fn rfind_char(s: &Vec<char>, c: char) -> (r: Option<usize>)
    ensures
        match r {
            Some(k) => k == last_index(s@, c),
            None => last_index(s@, c) == -1,
        },
{
    let mut i: usize = s.len();
    while i > 0
        invariant
            i <= s@.len(),
            last_index_before(s@, c, i as int) == last_index(s@, c),
        decreases i,
    {
        if s[i - 1] == c {
            return Some(i - 1);
        }
        i = i - 1;
    }
    None
}

/// The characters of `v` from `from` to `to`, as a string.
pub fn string_of(v: &Vec<char>, s: &str, from: usize, to: usize) -> (r: String)
    requires
        v@ == s@,
        from <= to <= v@.len(),
    ensures
        r@ == s@.subrange(from as int, to as int),
{
    s.substring_char(from, to).to_string()
}

/// `s` with every occurrence of `from` replaced by `to`, scanning left to right.
pub fn replace(s: &str, from: &str, to: &str) -> (r: String)
    requires
        from@.len() > 0,
    ensures
        r@ == replace_all(s@, from@, to@),
{
    let sv = chars_of(s);
    let fv = chars_of(from);
    let n = sv.len();
    let mut res = String::new();
    let mut i: usize = 0;
    while i < n
        invariant
            sv@ == s@,
            fv@ == from@,
            n == s@.len(),
            from@.len() > 0,
            i <= n,
            res@ + replace_from(s@, from@, to@, i as int) == replace_all(s@, from@, to@),
        decreases n - i,
    {
        if matches_at(&sv, &fv, i) {
            res.append(to);
            i = i + fv.len();
        } else {
            res.append(s.substring_char(i, i + 1));
            i = i + 1;
        }
        proof {
            assert(res@ + replace_from(s@, from@, to@, i as int) =~= replace_all(s@, from@, to@));
        }
    }
    assert(replace_from(s@, from@, to@, i as int) =~= Seq::<char>::empty());
    assert(res@ =~= res@ + Seq::<char>::empty());
    res
}

} // verus!
