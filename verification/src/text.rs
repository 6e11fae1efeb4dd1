//! Character-level text utilities shared by the chunker, the parsers and the
//! context assembler: whitespace classification, substring search, and
//! construction of strings from character sequences.

use vstd::prelude::*;

verus! {

/// The whitespace characters on which text is split into words.
pub open spec fn is_space_char(c: char) -> bool {
    c == ' ' || c == '\t' || c == '\n' || c == '\r' || c == '\u{000b}' || c == '\u{000c}'
}

/// Runtime check matching `is_space_char`.
pub fn space_char(c: char) -> (r: bool)
    ensures
        r == is_space_char(c),
{
    c == ' ' || c == '\t' || c == '\n' || c == '\r' || c == '\u{000b}' || c == '\u{000c}'
}

/// Relies on `String::push` from std: appends one character to the string.
#[verifier::external_body]
pub(crate) fn push_char(s: &mut String, c: char)
    ensures
        final(s)@ == old(s)@.push(c),
{
    s.push(c)
}

/// Collects the characters of a string slice into a vector.
pub fn chars_vec(s: &str) -> (r: Vec<char>)
    ensures
        r@ == s@,
{
    let n = s.unicode_len();
    let mut r: Vec<char> = Vec::new();
    let mut i: usize = 0;
    while i < n
        invariant
            i <= n,
            n == s@.len(),
            r@ == s@.take(i as int),
        decreases n - i,
    {
        let c = s.get_char(i);
        r.push(c);
        assert(s@.take((i + 1) as int) =~= s@.take(i as int).push(c));
        i = i + 1;
    }
    proof {
        assert(s@.take(n as int) =~= s@);
    }
    r
}

/// Builds a `String` whose view is exactly the given character sequence.
pub fn string_from_chars(v: &Vec<char>) -> (r: String)
    ensures
        r@ == v@,
{
    let mut r = String::new();
    let mut i: usize = 0;
    while i < v.len()
        invariant
            i <= v@.len(),
            r@ == v@.take(i as int),
        decreases v@.len() - i,
    {
        let c = v[i];
        push_char(&mut r, c);
        assert(v@.take((i + 1) as int) =~= v@.take(i as int).push(c));
        i = i + 1;
    }
    proof {
        assert(v@.take(v@.len() as int) =~= v@);
    }
    r
}

/// True iff the needle occurs at position `at` of the haystack.
pub open spec fn occurs_at(h: Seq<char>, n: Seq<char>, at: int) -> bool {
    0 <= at && at + n.len() <= h.len() && h.subrange(at, at + n.len()) == n
}

/// True iff the needle occurs as a contiguous run inside the haystack.
pub open spec fn contains_seq(h: Seq<char>, n: Seq<char>) -> bool {
    exists|i: int| occurs_at(h, n, i)
}

/// Checks whether the needle occurs at position `at` of the haystack.
pub fn match_at(h: &Vec<char>, n: &Vec<char>, at: usize) -> (r: bool)
    requires
        at + n@.len() <= h@.len(),
    ensures
        r == occurs_at(h@, n@, at as int),
{
    let nl = n.len();
    let hl = h.len();
    let mut j: usize = 0;
    while j < nl
        invariant
            j <= nl,
            nl == n@.len(),
            hl == h@.len(),
            at + nl <= hl,
            h@.subrange(at as int, at + j) == n@.take(j as int),
        decreases nl - j,
    {
        if h[at + j] != n[j] {
            proof {
                let hs = h@.subrange(at as int, at + n@.len());
                assert(hs[j as int] == h@[at + j]);
            }
            return false;
        }
        assert(h@.subrange(at as int, at + j + 1) =~= h@.subrange(at as int, at + j).push(
            h@[at + j],
        ));
        assert(n@.take((j + 1) as int) =~= n@.take(j as int).push(n@[j as int]));
        j = j + 1;
    }
    proof {
        assert(n@.take(n@.len() as int) =~= n@);
    }
    true
}

/// Index of the first occurrence of the needle at or after position `i`,
/// or -1 when there is none.  Meaningful only for a non-empty needle.
pub open spec fn first_occur_from(h: Seq<char>, n: Seq<char>, i: int) -> int
    decreases h.len() - i when 0 <= i <= h.len() && n.len() > 0
{
    if i + n.len() > h.len() {
        -1
    } else if h.subrange(i, i + n.len()) == n {
        i
    } else {
        first_occur_from(h, n, i + 1)
    }
}

pub proof fn lemma_first_occur_bounds(h: Seq<char>, n: Seq<char>, i: int)
    requires
        0 <= i <= h.len(),
        n.len() > 0,
    ensures
        first_occur_from(h, n, i) == -1 || (i <= first_occur_from(h, n, i) && occurs_at(
            h,
            n,
            first_occur_from(h, n, i),
        )),
    decreases h.len() - i,
{
    if i + n.len() > h.len() {
    } else if h.subrange(i, i + n.len()) == n {
    } else {
        lemma_first_occur_bounds(h, n, i + 1);
    }
}

pub proof fn lemma_first_occur_none(h: Seq<char>, n: Seq<char>, i: int)
    requires
        0 <= i <= h.len(),
        n.len() > 0,
    ensures
        (first_occur_from(h, n, i) >= 0) == exists|k: int| i <= k && occurs_at(h, n, k),
    decreases h.len() - i,
{
    if i + n.len() > h.len() {
        assert forall|k: int| i <= k implies !occurs_at(h, n, k) by {}
    } else if h.subrange(i, i + n.len()) == n {
        assert(occurs_at(h, n, i));
    } else {
        lemma_first_occur_none(h, n, i + 1);
        if exists|k: int| i <= k && occurs_at(h, n, k) {
            let k = choose|k: int| i <= k && occurs_at(h, n, k);
            assert(k != i);
            assert(i + 1 <= k && occurs_at(h, n, k));
        }
    }
}

/// Finds the first occurrence of a non-empty needle at or after `from`, as
/// `first_occur_from` describes; `None` stands for -1.
pub fn find_from(h: &Vec<char>, n: &Vec<char>, from: usize) -> (r: Option<usize>)
    requires
        from <= h@.len(),
        n@.len() > 0,
    ensures
        match r {
            Some(j) => first_occur_from(h@, n@, from as int) == j as int,
            None => first_occur_from(h@, n@, from as int) == -1,
        },
{
    let nl = n.len();
    let hl = h.len();
    if nl > hl {
        return None;
    }
    let limit = hl - nl;
    let mut j: usize = from;
    while j <= limit
        invariant
            from <= j,
            j <= hl,
            nl == n@.len(),
            hl == h@.len(),
            nl <= hl,
            limit == hl - nl,
            0 < nl,
            first_occur_from(h@, n@, from as int) == first_occur_from(h@, n@, j as int),
        decreases hl - j,
    {
        if match_at(h, n, j) {
            return Some(j);
        }
        assert(first_occur_from(h@, n@, j as int) == first_occur_from(h@, n@, j + 1));
        j = j + 1;
    }
    assert(j + nl > hl);
    None
}

/// Checks whether the needle occurs anywhere in the haystack; an empty
/// needle is contained in every text.
pub fn contains_chars(h: &Vec<char>, n: &Vec<char>) -> (r: bool)
    ensures
        r == contains_seq(h@, n@),
{
    if n.len() == 0 {
        proof {
            assert(h@.subrange(0, 0) =~= n@);
            assert(occurs_at(h@, n@, 0));
        }
        return true;
    }
    proof {
        lemma_first_occur_none(h@, n@, 0);
        lemma_first_occur_bounds(h@, n@, 0);
    }
    match find_from(h, n, 0) {
        Some(j) => true,
        None => {
            proof {
                if contains_seq(h@, n@) {
                    let k = choose|k: int| occurs_at(h@, n@, k);
                    assert(0 <= k && occurs_at(h@, n@, k));
                }
            }
            false
        },
    }
}

/// Index of the first position at or after `i` whose character satisfies `p`,
/// or the length of the text when there is none.
pub open spec fn next_match(s: Seq<char>, i: int, p: spec_fn(char) -> bool) -> int
    decreases s.len() - i when 0 <= i <= s.len()
{
    if i >= s.len() {
        s.len() as int
    } else if p(s[i]) {
        i
    } else {
        next_match(s, i + 1, p)
    }
}

/// Index of the first position at or after `i` whose character does not
/// satisfy `p`, or the length of the text when there is none.
pub open spec fn next_nomatch(s: Seq<char>, i: int, p: spec_fn(char) -> bool) -> int
    decreases s.len() - i when 0 <= i <= s.len()
{
    if i >= s.len() {
        s.len() as int
    } else if !p(s[i]) {
        i
    } else {
        next_nomatch(s, i + 1, p)
    }
}

pub proof fn lemma_next_match(s: Seq<char>, i: int, p: spec_fn(char) -> bool)
    requires
        0 <= i <= s.len(),
    ensures
        i <= next_match(s, i, p) <= s.len(),
        next_match(s, i, p) < s.len() ==> p(s[next_match(s, i, p)]),
        forall|k: int| i <= k < next_match(s, i, p) ==> !p(s[k]),
    decreases s.len() - i,
{
    if i >= s.len() {
    } else if p(s[i]) {
    } else {
        lemma_next_match(s, i + 1, p);
    }
}

pub proof fn lemma_next_nomatch(s: Seq<char>, i: int, p: spec_fn(char) -> bool)
    requires
        0 <= i <= s.len(),
    ensures
        i <= next_nomatch(s, i, p) <= s.len(),
        next_nomatch(s, i, p) < s.len() ==> !p(s[next_nomatch(s, i, p)]),
        forall|k: int| i <= k < next_nomatch(s, i, p) ==> p(s[k]),
    decreases s.len() - i,
{
    if i >= s.len() {
    } else if !p(s[i]) {
    } else {
        lemma_next_nomatch(s, i + 1, p);
    }
}

/// The maximal runs of non-separator characters at or after position `i`:
/// what splitting the suffix on the separator class yields, empty runs
/// dropped.
pub open spec fn split_from(s: Seq<char>, i: int, sep: spec_fn(char) -> bool) -> Seq<Seq<char>>
    decreases s.len() - i when 0 <= i <= s.len() via split_from_dec
{
    let ns = next_nomatch(s, i, sep);
    if ns >= s.len() {
        Seq::empty()
    } else {
        let we = next_match(s, ns, sep);
        seq![s.subrange(ns, we)] + split_from(s, we, sep)
    }
}

#[via_fn]
proof fn split_from_dec(s: Seq<char>, i: int, sep: spec_fn(char) -> bool) {
    lemma_next_nomatch(s, i, sep);
    let ns = next_nomatch(s, i, sep);
    if ns < s.len() {
        lemma_next_match(s, ns, sep);
        if next_match(s, ns, sep) == ns {
            assert(sep(s[ns]));
        }
    }
}

/// Every run that `split_from` yields is non-empty and free of separators.
pub proof fn lemma_split_from_wf(s: Seq<char>, i: int, sep: spec_fn(char) -> bool)
    requires
        0 <= i <= s.len(),
    ensures
        forall|k: int|
            0 <= k < split_from(s, i, sep).len() ==> {
                let w = #[trigger] split_from(s, i, sep)[k];
                w.len() > 0 && forall|j: int| 0 <= j < w.len() ==> !sep(#[trigger] w[j])
            },
    decreases s.len() - i,
{
    lemma_next_nomatch(s, i, sep);
    let ns = next_nomatch(s, i, sep);
    if ns < s.len() {
        lemma_next_match(s, ns, sep);
        let we = next_match(s, ns, sep);
        if we == ns {
            assert(sep(s[ns]));
        }
        lemma_split_from_wf(s, we, sep);
        let w0 = s.subrange(ns, we);
        assert forall|j: int| 0 <= j < w0.len() implies !sep(#[trigger] w0[j]) by {
            assert(w0[j] == s[ns + j]);
        }
        let all = split_from(s, i, sep);
        let tail = split_from(s, we, sep);
        assert(all == seq![w0] + tail);
        assert forall|k: int| 0 <= k < all.len() implies {
            let w = #[trigger] all[k];
            w.len() > 0 && forall|j: int| 0 <= j < w.len() ==> !sep(#[trigger] w[j])
        } by {
            if k == 0 {
                assert(all[k] == w0);
            } else {
                assert(all[k] == tail[k - 1]);
            }
        }
    }
}

/// What lowercasing a text yields.  Relies on `str::to_lowercase` being a
/// function of the characters alone.
pub uninterp spec fn lower_of(s: Seq<char>) -> Seq<char>;

/// Relies on `str::to_lowercase`: the Unicode lowercase form of the text,
/// depending on its characters alone; an empty text stays empty.
#[verifier::external_body]
pub(crate) fn lowercase(s: &str) -> (r: String)
    ensures
        r@ == lower_of(s@),
        s@.len() == 0 ==> r@.len() == 0,
{
    s.to_lowercase()
}

/// Scanning for a match commutes with dropping a prefix.
pub proof fn lemma_next_match_shift(s: Seq<char>, i: int, d: int, p: spec_fn(char) -> bool)
    requires
        0 <= i,
        0 <= d,
        i + d <= s.len(),
    ensures
        next_match(s, i + d, p) == i + next_match(s.skip(i), d, p),
    decreases s.len() - i - d,
{
    if i + d >= s.len() {
        assert(s.skip(i).len() == s.len() - i);
    } else {
        assert(s.skip(i)[d] == s[i + d]);
        if !p(s[i + d]) {
            lemma_next_match_shift(s, i, d + 1, p);
        }
    }
}

/// Scanning for a non-match commutes with dropping a prefix.
pub proof fn lemma_next_nomatch_shift(s: Seq<char>, i: int, d: int, p: spec_fn(char) -> bool)
    requires
        0 <= i,
        0 <= d,
        i + d <= s.len(),
    ensures
        next_nomatch(s, i + d, p) == i + next_nomatch(s.skip(i), d, p),
    decreases s.len() - i - d,
{
    if i + d >= s.len() {
        assert(s.skip(i).len() == s.len() - i);
    } else {
        assert(s.skip(i)[d] == s[i + d]);
        if p(s[i + d]) {
            lemma_next_nomatch_shift(s, i, d + 1, p);
        }
    }
}

/// Splitting a suffix equals splitting from that position.
pub proof fn lemma_split_shift(s: Seq<char>, i: int, p: spec_fn(char) -> bool)
    requires
        0 <= i <= s.len(),
    ensures
        split_from(s, i, p) == split_from(s.skip(i), 0, p),
    decreases s.len() - i,
{
    lemma_next_nomatch(s, i, p);
    lemma_next_nomatch_shift(s, i, 0, p);
    let ns = next_nomatch(s, i, p);
    assert(next_nomatch(s.skip(i), 0, p) == ns - i);
    if ns >= s.len() {
        assert(split_from(s, i, p) =~= Seq::<Seq<char>>::empty());
        assert(split_from(s.skip(i), 0, p) =~= Seq::<Seq<char>>::empty());
    } else {
        lemma_next_match(s, ns, p);
        lemma_next_match_shift(s, i, ns - i, p);
        let we = next_match(s, ns, p);
        assert(next_match(s.skip(i), ns - i, p) == we - i);
        assert(s.subrange(ns, we) =~= s.skip(i).subrange(ns - i, we - i));
        if we == ns {
            assert(p(s[ns]));
        }
        lemma_split_shift(s, we, p);
        lemma_split_shift(s.skip(i), we - i, p);
        assert(s.skip(i).skip(we - i) =~= s.skip(we));
        assert(split_from(s, i, p) == seq![s.subrange(ns, we)] + split_from(s, we, p));
        assert(split_from(s.skip(i), 0, p) == seq![
            s.skip(i).subrange(ns - i, we - i),
        ] + split_from(s.skip(i), we - i, p));
    }
}

/// Exact characterization of the first matching position.
pub proof fn lemma_next_match_exact(s: Seq<char>, i: int, k: int, p: spec_fn(char) -> bool)
    requires
        0 <= i <= k <= s.len(),
        forall|m: int| i <= m < k ==> !p(#[trigger] s[m]),
        k < s.len() ==> p(s[k]),
    ensures
        next_match(s, i, p) == k,
    decreases k - i,
{
    if i < k {
        lemma_next_match_exact(s, i + 1, k, p);
    }
}

/// The class of one separator character.
pub open spec fn eq_pred(c: char) -> spec_fn(char) -> bool {
    |x: char| x == c
}

/// Splits a text on one separator character into its maximal
/// separator-free runs, empty runs dropped.
pub fn split_on_char(v: &Vec<char>, c: char) -> (r: Vec<Vec<char>>)
    ensures
        crate::chunker::views(r@) == split_from(v@, 0, eq_pred(c)),
{
    let n = v.len();
    let mut r: Vec<Vec<char>> = Vec::new();
    let mut i: usize = 0;
    proof {
        lemma_next_nomatch(v@, 0, eq_pred(c));
    }
    while i < n && v[i] == c
        invariant
            i <= n,
            n == v@.len(),
            next_nomatch(v@, 0, eq_pred(c)) == next_nomatch(v@, i as int, eq_pred(c)),
        decreases n - i,
    {
        assert(eq_pred(c)(v@[i as int]));
        i = i + 1;
    }
    proof {
        if i < n {
            assert(!eq_pred(c)(v@[i as int]));
        }
        assert(next_nomatch(v@, i as int, eq_pred(c)) == i as int);
        crate::chunker::lemma_split_from_align(v@, 0, eq_pred(c));
    }
    while i < n
        invariant
            i <= n,
            n == v@.len(),
            next_nomatch(v@, i as int, eq_pred(c)) == i as int || i == n,
            split_from(v@, 0, eq_pred(c)) == crate::chunker::views(r@) + split_from(
                v@,
                i as int,
                eq_pred(c),
            ),
        decreases n - i,
    {
        proof {
            if next_nomatch(v@, i as int, eq_pred(c)) != i as int {
                assert(false);
            }
        }
        let mut e: usize = i;
        while e < n && v[e] != c
            invariant
                i <= e <= n,
                n == v@.len(),
                next_match(v@, i as int, eq_pred(c)) == next_match(v@, e as int, eq_pred(c)),
            decreases n - e,
        {
            assert(!eq_pred(c)(v@[e as int]));
            e = e + 1;
        }
        proof {
            if e < n {
                assert(eq_pred(c)(v@[e as int]));
            }
            assert(next_match(v@, i as int, eq_pred(c)) == e as int);
        }
        let seg = copy_span(v, i, e);
        let ghost old_r = r@;
        let ghost old_i = i as int;
        r.push(seg);
        proof {
            assert(split_from(v@, old_i, eq_pred(c)) == seq![
                v@.subrange(old_i, e as int),
            ] + split_from(v@, e as int, eq_pred(c)));
            assert(crate::chunker::views(r@) =~= crate::chunker::views(old_r).push(seg@));
            assert(crate::chunker::views(old_r).push(seg@) + split_from(v@, e as int, eq_pred(c))
                =~= crate::chunker::views(old_r) + split_from(v@, old_i, eq_pred(c)));
        }
        let mut j: usize = e;
        while j < n && v[j] == c
            invariant
                e <= j <= n,
                n == v@.len(),
                next_nomatch(v@, e as int, eq_pred(c)) == next_nomatch(v@, j as int, eq_pred(c)),
            decreases n - j,
        {
            assert(eq_pred(c)(v@[j as int]));
            j = j + 1;
        }
        proof {
            if j < n {
                assert(!eq_pred(c)(v@[j as int]));
            }
            assert(next_nomatch(v@, j as int, eq_pred(c)) == j as int);
            lemma_next_nomatch(v@, e as int, eq_pred(c));
            crate::chunker::lemma_split_from_align(v@, e as int, eq_pred(c));
            assert(next_nomatch(v@, e as int, eq_pred(c)) == j as int);
        }
        i = j;
    }
    proof {
        assert(split_from(v@, i as int, eq_pred(c)) =~= Seq::<Seq<char>>::empty());
        assert(crate::chunker::views(r@) + Seq::<Seq<char>>::empty() =~= crate::chunker::views(r@));
    }
    r
}

/// Compares two character vectors by contents.
pub fn match_vecs(a: &Vec<char>, b: &Vec<char>) -> (r: bool)
    ensures
        r == (a@ == b@),
{
    if a.len() != b.len() {
        return false;
    }
    let mut i: usize = 0;
    while i < a.len()
        invariant
            i <= a@.len(),
            a@.len() == b@.len(),
            forall|k: int| 0 <= k < i ==> a@[k] == b@[k],
        decreases a@.len() - i,
    {
        if a[i] != b[i] {
            return false;
        }
        i = i + 1;
    }
    proof {
        assert(a@ =~= b@);
    }
    true
}

/// Copies the characters of `h` between `a` and `b`.
pub fn copy_span(h: &Vec<char>, a: usize, b: usize) -> (r: Vec<char>)
    requires
        a <= b <= h@.len(),
    ensures
        r@ == h@.subrange(a as int, b as int),
{
    let mut r: Vec<char> = Vec::new();
    let mut k: usize = a;
    while k < b
        invariant
            a <= k <= b <= h@.len(),
            r@ == h@.subrange(a as int, k as int),
        decreases b - k,
    {
        r.push(h[k]);
        assert(h@.subrange(a as int, (k + 1) as int) =~= h@.subrange(a as int, k as int).push(
            h@[k as int],
        ));
        k = k + 1;
    }
    r
}

} // verus!
