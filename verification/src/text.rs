//! Small string helpers shared by the layout modules.

use vstd::prelude::*;

verus! {

/// `s` with every trailing NUL character removed.
pub open spec fn trim_nul(s: Seq<char>) -> Seq<char>
    decreases s.len(),
{
    if s.len() > 0 && s.last() == '\0' {
        trim_nul(s.drop_last())
    } else {
        s
    }
}

proof fn lemma_trim_nul_prefix(s: Seq<char>, k: int)
    requires
        0 <= k <= s.len(),
        forall|j: int| k <= j < s.len() ==> s[j] == '\0',
        k == 0 || s[k - 1] != '\0',
    ensures
        trim_nul(s) == s.subrange(0, k),
    decreases s.len(),
{
    if s.len() > k {
        assert(s.last() == '\0');
        assert(s.drop_last().subrange(0, k) == s.subrange(0, k));
        lemma_trim_nul_prefix(s.drop_last(), k);
    } else {
        assert(s.subrange(0, k) =~= s);
        if s.len() > 0 {
            assert(s.last() == s[k - 1]);
        }
    }
}

/// Removes trailing NUL characters, as names read from fixed-size binary fields carry them.
pub fn trim_nul_str(s: &str) -> (res: String)
    ensures
        res@ == trim_nul(s@),
{
    let n = s.unicode_len();
    let mut k = n;
    while k > 0 && s.get_char(k - 1) == '\0'
        invariant
            n == s@.len(),
            0 <= k <= n,
            forall|j: int| k <= j < n ==> s@[j] == '\0',
        decreases k,
    {
        k = k - 1;
    }
    proof {
        lemma_trim_nul_prefix(s@, k as int);
    }
    let sub = s.substring_char(0, k);
    String::from_str(sub)
}


/// What `str::to_lowercase` makes of a string: its Unicode lowercase form.
pub uninterp spec fn lowercase(s: Seq<char>) -> Seq<char>;

/// Lowercases with `str::to_lowercase`. Claimed: the result is `lowercase(s)`, a
/// function of the string alone; which characters it maps to which is not stated.
#[verifier::external_body]
pub(crate) fn to_lowercase(s: &str) -> (res: String)
    ensures
        res@ == lowercase(s@),
{
    s.to_lowercase()
}

/// The position of the last occurrence of `c` in `s`.
pub open spec fn last_index_of(s: Seq<char>, c: char) -> Option<int>
    decreases s.len(),
{
    if s.len() == 0 {
        None
    } else if s.last() == c {
        Some(s.len() - 1)
    } else {
        last_index_of(s.drop_last(), c)
    }
}

/// The position of the first occurrence of `c` in `s`.
pub open spec fn first_index_of(s: Seq<char>, c: char) -> Option<int>
    decreases s.len(),
{
    if s.len() == 0 {
        None
    } else {
        match first_index_of(s.drop_last(), c) {
            Some(i) => Some(i),
            None => if s.last() == c { Some(s.len() - 1) } else { None },
        }
    }
}

/// What follows the last `c` in `s`, or all of `s` where there is none.
pub open spec fn after_last(s: Seq<char>, c: char) -> Seq<char> {
    match last_index_of(s, c) {
        Some(i) => s.subrange(i + 1, s.len() as int),
        None => s,
    }
}

/// What precedes the last `c` in `s`, or all of `s` where there is none.
pub open spec fn before_last(s: Seq<char>, c: char) -> Seq<char> {
    match last_index_of(s, c) {
        Some(i) => s.subrange(0, i),
        None => s,
    }
}

/// What precedes the first `c` in `s`, or all of `s` where there is none.
pub open spec fn before_first(s: Seq<char>, c: char) -> Seq<char> {
    match first_index_of(s, c) {
        Some(i) => s.subrange(0, i),
        None => s,
    }
}

proof fn lemma_last_index_of(s: Seq<char>, c: char)
    ensures
        match last_index_of(s, c) {
            Some(i) => 0 <= i < s.len() && s[i] == c && forall|j: int| i < j < s.len() ==> s[j] != c,
            None => forall|j: int| 0 <= j < s.len() ==> s[j] != c,
        },
    decreases s.len(),
{
    if s.len() > 0 && s.last() != c {
        lemma_last_index_of(s.drop_last(), c);
        assert forall|j: int| 0 <= j < s.len() - 1 implies s.drop_last()[j] == s[j] by {}
    }
}

proof fn lemma_first_index_of(s: Seq<char>, c: char)
    ensures
        match first_index_of(s, c) {
            Some(i) => 0 <= i < s.len() && s[i] == c && forall|j: int| 0 <= j < i ==> s[j] != c,
            None => forall|j: int| 0 <= j < s.len() ==> s[j] != c,
        },
    decreases s.len(),
{
    if s.len() > 0 {
        lemma_first_index_of(s.drop_last(), c);
        assert forall|j: int| 0 <= j < s.len() - 1 implies s.drop_last()[j] == s[j] by {}
    }
}

/// The position of the last `c` in `s`.
pub fn find_last_char(s: &str, c: char) -> (r: Option<usize>)
    ensures
        match r {
            Some(i) => last_index_of(s@, c) == Some(i as int),
            None => last_index_of(s@, c) is None,
        },
{
    proof {
        lemma_last_index_of(s@, c);
    }
    let n = s.unicode_len();
    let mut k = n;
    while k > 0
        invariant
            0 <= k <= n,
            n == s@.len(),
            forall|j: int| k <= j < n ==> s@[j] != c,
            match last_index_of(s@, c) {
                Some(i) => 0 <= i < s@.len() && s@[i] == c && forall|j: int| i < j < s@.len() ==> s@[j] != c,
                None => forall|j: int| 0 <= j < s@.len() ==> s@[j] != c,
            },
        decreases k,
    {
        if s.get_char(k - 1) == c {
            return Some(k - 1);
        }
        k = k - 1;
    }
    None
}

/// The position of the first `c` in `s`.
pub fn find_first_char(s: &str, c: char) -> (r: Option<usize>)
    ensures
        match r {
            Some(i) => first_index_of(s@, c) == Some(i as int),
            None => first_index_of(s@, c) is None,
        },
{
    proof {
        lemma_first_index_of(s@, c);
    }
    let n = s.unicode_len();
    let mut k: usize = 0;
    while k < n
        invariant
            0 <= k <= n,
            n == s@.len(),
            forall|j: int| 0 <= j < k ==> s@[j] != c,
            match first_index_of(s@, c) {
                Some(i) => 0 <= i < s@.len() && s@[i] == c && forall|j: int| 0 <= j < i ==> s@[j] != c,
                None => forall|j: int| 0 <= j < s@.len() ==> s@[j] != c,
            },
        decreases n - k,
    {
        if s.get_char(k) == c {
            return Some(k);
        }
        k = k + 1;
    }
    None
}

/// What follows the last `c` in `s`.
pub fn str_after_last<'a>(s: &'a str, c: char) -> (r: &'a str)
    ensures
        r@ == after_last(s@, c),
{
    proof {
        lemma_last_index_of(s@, c);
    }
    let n = s.unicode_len();
    match find_last_char(s, c) {
        Some(i) => s.substring_char(i + 1, n),
        None => s,
    }
}

/// What precedes the last `c` in `s`.
pub fn str_before_last<'a>(s: &'a str, c: char) -> (r: &'a str)
    ensures
        r@ == before_last(s@, c),
{
    proof {
        lemma_last_index_of(s@, c);
    }
    match find_last_char(s, c) {
        Some(i) => s.substring_char(0, i),
        None => s,
    }
}

/// What precedes the first `c` in `s`.
pub fn str_before_first<'a>(s: &'a str, c: char) -> (r: &'a str)
    ensures
        r@ == before_first(s@, c),
{
    proof {
        lemma_first_index_of(s@, c);
    }
    match find_first_char(s, c) {
        Some(i) => s.substring_char(0, i),
        None => s,
    }
}

/// `a` comes strictly before `b` in lexicographic order of characters.
pub open spec fn chars_lt(a: Seq<char>, b: Seq<char>) -> bool
    decreases a.len(),
{
    if b.len() == 0 {
        false
    } else if a.len() == 0 {
        true
    } else if a[0] < b[0] {
        true
    } else if a[0] == b[0] {
        chars_lt(a.drop_first(), b.drop_first())
    } else {
        false
    }
}

/// Whether `a` comes strictly before `b`, comparing character by character as string
/// ordering does (the order of UTF-8 bytes is the order of the characters they encode).
pub fn str_lt(a: &str, b: &str) -> (r: bool)
    ensures
        r == chars_lt(a@, b@),
{
    let na = a.unicode_len();
    let nb = b.unicode_len();
    let mut i: usize = 0;
    proof {
        assert(a@.skip(0) =~= a@);
        assert(b@.skip(0) =~= b@);
    }
    while i < na && i < nb
        invariant
            0 <= i <= na,
            i <= nb,
            na == a@.len(),
            nb == b@.len(),
            a@.subrange(0, i as int) == b@.subrange(0, i as int),
            chars_lt(a@, b@) == chars_lt(a@.skip(i as int), b@.skip(i as int)),
        decreases na - i,
    {
        let ca = a.get_char(i);
        let cb = b.get_char(i);
        proof {
            assert(a@.skip(i as int)[0] == ca);
            assert(b@.skip(i as int)[0] == cb);
        }
        if ca < cb {
            return true;
        }
        if ca != cb {
            return false;
        }
        proof {
            assert(a@.skip(i as int).drop_first() =~= a@.skip(i + 1));
            assert(b@.skip(i as int).drop_first() =~= b@.skip(i + 1));
            assert(a@.subrange(0, i + 1) =~= a@.subrange(0, i as int).push(ca));
            assert(b@.subrange(0, i + 1) =~= b@.subrange(0, i as int).push(cb));
        }
        i = i + 1;
    }
    i < nb
}


/// No string comes strictly before itself.
pub proof fn lemma_chars_lt_irreflexive(a: Seq<char>)
    ensures
        !chars_lt(a, a),
    decreases a.len(),
{
    if a.len() > 0 {
        lemma_chars_lt_irreflexive(a.drop_first());
    }
}

/// Of two different strings, one comes strictly before the other.
pub proof fn lemma_chars_lt_total(a: Seq<char>, b: Seq<char>)
    ensures
        chars_lt(a, b) || a == b || chars_lt(b, a),
    decreases a.len(),
{
    if a.len() == 0 && b.len() == 0 {
        assert(a =~= b);
    } else if a.len() > 0 && b.len() > 0 && a[0] == b[0] {
        lemma_chars_lt_total(a.drop_first(), b.drop_first());
        if a.drop_first() == b.drop_first() {
            assert(a =~= seq![a[0]] + a.drop_first());
            assert(b =~= seq![b[0]] + b.drop_first());
        }
    }
}

/// No two strings come strictly before each other.
pub proof fn lemma_chars_lt_asymmetric(a: Seq<char>, b: Seq<char>)
    ensures
        !(chars_lt(a, b) && chars_lt(b, a)),
    decreases a.len(),
{
    if a.len() > 0 && b.len() > 0 && a[0] == b[0] {
        lemma_chars_lt_asymmetric(a.drop_first(), b.drop_first());
    }
}

/// Coming strictly before is transitive.
pub proof fn lemma_chars_lt_transitive(a: Seq<char>, b: Seq<char>, c: Seq<char>)
    requires
        chars_lt(a, b),
        chars_lt(b, c),
    ensures
        chars_lt(a, c),
    decreases a.len(),
{
    if a.len() > 0 && b.len() > 0 && c.len() > 0 && a[0] == b[0] && b[0] == c[0] {
        lemma_chars_lt_transitive(a.drop_first(), b.drop_first(), c.drop_first());
    }
}

/// Not coming before is transitive too: it is "comes after or equals".
pub proof fn lemma_chars_not_lt_transitive(a: Seq<char>, b: Seq<char>, c: Seq<char>)
    requires
        !chars_lt(a, b),
        !chars_lt(b, c),
    ensures
        !chars_lt(a, c),
{
    if chars_lt(a, c) {
        lemma_chars_lt_total(a, b);
        lemma_chars_lt_total(b, c);
        if chars_lt(b, a) {
            if b == c {
            } else {
                lemma_chars_lt_transitive(c, b, a);
                lemma_chars_lt_asymmetric(a, c);
            }
        }
    }
}

} // verus!
