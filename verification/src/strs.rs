use vstd::prelude::*;
use vstd::string::*;

verus! {

/// The whitespace characters the board's text handling recognises.
pub open spec fn is_space(c: char) -> bool {
    c == ' ' || c == '\t' || c == '\n' || c == '\r'
}

/// Exec test for [`is_space`].
pub fn space_char(c: char) -> (r: bool)
    ensures
        r == is_space(c),
{
    c == ' ' || c == '\t' || c == '\n' || c == '\r'
}

/// View of a sequence of strings as a sequence of character sequences.
pub open spec fn strings_view(v: Seq<String>) -> Seq<Seq<char>> {
    v.map_values(|s: String| s@)
}

/// View of an optional string.
pub open spec fn opt_string_view(o: Option<String>) -> Option<Seq<char>> {
    match o {
        Option::None => Option::None,
        Option::Some(s) => Option::Some(s@),
    }
}

/// All occurrences of `x` removed from `s`, order of the rest kept.
pub open spec fn remove_all(s: Seq<Seq<char>>, x: Seq<char>) -> Seq<Seq<char>>
    decreases s.len(),
{
    if s.len() == 0 {
        Seq::empty()
    } else if s.last() == x {
        remove_all(s.drop_last(), x)
    } else {
        remove_all(s.drop_last(), x).push(s.last())
    }
}

/// How many entries of `s` equal `x`.
pub open spec fn count_occ(s: Seq<Seq<char>>, x: Seq<char>) -> nat
    decreases s.len(),
{
    if s.len() == 0 {
        0
    } else {
        count_occ(s.drop_last(), x) + if s.last() == x {
            1nat
        } else {
            0nat
        }
    }
}

pub proof fn lemma_remove_all_push(s: Seq<Seq<char>>, x: Seq<char>, y: Seq<char>)
    ensures
        y == x ==> remove_all(s.push(y), x) == remove_all(s, x),
        y != x ==> remove_all(s.push(y), x) == remove_all(s, x).push(y),
{
    assert(s.push(y).drop_last() =~= s);
    assert(s.push(y).last() == y);
}

pub proof fn lemma_count_occ_push(s: Seq<Seq<char>>, x: Seq<char>, y: Seq<char>)
    ensures
        count_occ(s.push(y), x) == count_occ(s, x) + if y == x {
            1nat
        } else {
            0nat
        },
{
    assert(s.push(y).drop_last() =~= s);
}

/// `remove_all` leaves no occurrence of the removed entry.
pub proof fn lemma_remove_all_gone(s: Seq<Seq<char>>, x: Seq<char>)
    ensures
        !remove_all(s, x).contains(x),
        count_occ(remove_all(s, x), x) == 0,
    decreases s.len(),
{
    if s.len() > 0 {
        lemma_remove_all_gone(s.drop_last(), x);
        if s.last() != x {
            lemma_count_occ_push(remove_all(s.drop_last(), x), x, s.last());
            assert forall|i: int|
                0 <= i < remove_all(s, x).len() implies remove_all(s, x)[i] != x by {
                let r = remove_all(s.drop_last(), x);
                if i < r.len() {
                    assert(!r.contains(x));
                    assert(r[i] != x);
                }
            }
        }
    }
}

/// Removing an entry that does not occur changes nothing.
pub proof fn lemma_remove_all_absent(s: Seq<Seq<char>>, x: Seq<char>)
    requires
        !s.contains(x),
    ensures
        remove_all(s, x) == s,
    decreases s.len(),
{
    if s.len() > 0 {
        assert(s.last() == s[s.len() - 1]);
        assert(s.last() != x);
        assert forall|i: int| 0 <= i < s.drop_last().len() implies s.drop_last()[i] != x by {
            assert(s.drop_last()[i] == s[i]);
        }
        assert(!s.drop_last().contains(x));
        lemma_remove_all_absent(s.drop_last(), x);
        assert(remove_all(s, x) =~= s);
    } else {
        assert(remove_all(s, x) =~= s);
    }
}

/// Removing twice is the same as removing once.
pub proof fn lemma_remove_all_idempotent(s: Seq<Seq<char>>, x: Seq<char>)
    ensures
        remove_all(remove_all(s, x), x) == remove_all(s, x),
{
    lemma_remove_all_gone(s, x);
    lemma_remove_all_absent(remove_all(s, x), x);
}

/// Entries other than the removed one keep their occurrence count,
/// and membership of other entries is untouched.
pub proof fn lemma_remove_all_other(s: Seq<Seq<char>>, x: Seq<char>, y: Seq<char>)
    requires
        y != x,
    ensures
        count_occ(remove_all(s, x), y) == count_occ(s, y),
        remove_all(s, x).contains(y) <==> s.contains(y),
    decreases s.len(),
{
    if s.len() > 0 {
        lemma_remove_all_other(s.drop_last(), x, y);
        lemma_count_occ_push(s.drop_last(), y, s.last());
        assert(s.drop_last().push(s.last()) =~= s);
        if s.last() != x {
            lemma_count_occ_push(remove_all(s.drop_last(), x), y, s.last());
        }
        lemma_contains_push(s.drop_last(), s.last(), y);
        if s.last() != x {
            lemma_contains_push(remove_all(s.drop_last(), x), s.last(), y);
        }
    }
}

/// Membership in a pushed sequence.
pub proof fn lemma_contains_push(s: Seq<Seq<char>>, e: Seq<char>, y: Seq<char>)
    ensures
        s.push(e).contains(y) <==> (s.contains(y) || y == e),
{
    if s.contains(y) {
        let i = choose|i: int| 0 <= i < s.len() && s[i] == y;
        assert(s.push(e)[i] == y);
    }
    if y == e {
        assert(s.push(e)[s.len() as int] == y);
    }
    if s.push(e).contains(y) {
        let i = choose|i: int| 0 <= i < s.push(e).len() && s.push(e)[i] == y;
        if i < s.len() {
            assert(s[i] == y);
        }
    }
}

/// Occurrence counts witness membership.
pub proof fn lemma_count_occ_contains(s: Seq<Seq<char>>, x: Seq<char>)
    ensures
        count_occ(s, x) == 0 <==> !s.contains(x),
        s.contains(x) ==> count_occ(s, x) >= 1,
    decreases s.len(),
{
    if s.len() > 0 {
        lemma_count_occ_contains(s.drop_last(), x);
        lemma_contains_push(s.drop_last(), s.last(), x);
        assert(s.drop_last().push(s.last()) =~= s);
        lemma_count_occ_push(s.drop_last(), x, s.last());
    }
}

/// First position at or after `i` that does not hold a space
/// (the sequence's length if all of the rest are spaces).
pub open spec fn scan_space(s: Seq<char>, i: int) -> int
    decreases s.len() - i,
{
    if i < 0 {
        i
    } else if i < s.len() && is_space(s[i]) {
        scan_space(s, i + 1)
    } else {
        i
    }
}

pub proof fn lemma_scan_space(s: Seq<char>, i: int)
    requires
        0 <= i <= s.len(),
    ensures
        i <= scan_space(s, i) <= s.len(),
        forall|k: int| i <= k < scan_space(s, i) ==> is_space(#[trigger] s[k]),
        scan_space(s, i) < s.len() ==> !is_space(s[scan_space(s, i)]),
    decreases s.len() - i,
{
    if i < s.len() && is_space(s[i]) {
        lemma_scan_space(s, i + 1);
    }
}

/// Largest position at or before `j` such that everything from it up
/// to `j` is a space (so the character just before it, if any, is not).
pub open spec fn rscan_space(s: Seq<char>, j: int) -> int
    decreases j,
{
    if 0 < j <= s.len() && is_space(s[j - 1]) {
        rscan_space(s, j - 1)
    } else {
        j
    }
}

pub proof fn lemma_rscan_space(s: Seq<char>, j: int)
    requires
        0 <= j <= s.len(),
    ensures
        0 <= rscan_space(s, j) <= j,
        forall|k: int| rscan_space(s, j) <= k < j ==> is_space(#[trigger] s[k]),
        rscan_space(s, j) > 0 ==> !is_space(s[rscan_space(s, j) - 1]),
    decreases j,
{
    if 0 < j && is_space(s[j - 1]) {
        lemma_rscan_space(s, j - 1);
    }
}

/// `s` with leading and trailing spaces removed.
pub open spec fn trimmed(s: Seq<char>) -> Seq<char> {
    let lo = scan_space(s, 0);
    let hi = rscan_space(s, s.len() as int);
    if lo <= hi {
        s.subrange(lo, hi)
    } else {
        Seq::empty()
    }
}

/// First position at or after `from` that does not hold a space, as
/// exec code.
pub fn find_non_space(s: &str, from: usize) -> (r: usize)
    requires
        from <= s@.len(),
    ensures
        r == scan_space(s@, from as int),
{
    proof {
        lemma_scan_space(s@, from as int);
    }
    let n = s.unicode_len();
    let mut j = from;
    while j < n && space_char(s.get_char(j))
        invariant
            from <= j <= n,
            n == s@.len(),
            scan_space(s@, from as int) == scan_space(s@, j as int),
        decreases n - j,
    {
        proof {
            lemma_scan_space(s@, j as int);
        }
        j = j + 1;
    }
    j
}

/// `s` with leading and trailing spaces removed, as exec code.
pub fn trim_spaces<'a>(s: &'a str) -> (r: &'a str)
    ensures
        r@ == trimmed(s@),
{
    let n = s.unicode_len();
    let lo = find_non_space(s, 0);
    let mut hi = n;
    proof {
        lemma_scan_space(s@, 0);
        lemma_rscan_space(s@, n as int);
    }
    while hi > 0 && space_char(s.get_char(hi - 1))
        invariant
            0 <= hi <= n,
            n == s@.len(),
            rscan_space(s@, n as int) == rscan_space(s@, hi as int),
        decreases hi,
    {
        proof {
            lemma_rscan_space(s@, hi as int);
        }
        hi = hi - 1;
    }
    if lo <= hi {
        s.substring_char(lo, hi)
    } else {
        s.substring_char(0, 0)
    }
}

} // verus!
