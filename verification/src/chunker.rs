//! Page-aware document chunking: a text is split into page segments on the
//! page-boundary marker, each page is split on whitespace into words, and the
//! words are grouped into consecutive windows of a fixed size.  The chunk
//! index increases across the whole document while page numbers start at 1
//! and increase per segment.

use vstd::prelude::*;

use crate::text::{
    chars_vec, contains_seq, first_occur_from, is_space_char, lemma_first_occur_bounds,
    lemma_next_match, lemma_next_nomatch, next_match, next_nomatch, occurs_at, space_char,
    split_from, string_from_chars,
};

verus! {

/// One fixed-size window of words cut out of a document page.
pub struct DocumentChunk {
    /// The words of the window, joined by single spaces.
    pub text: String,
    /// 1-based page the window was cut from.
    pub page_number: usize,
    /// 0-based position of the window in the whole document.
    pub chunk_index: usize,
    /// Extra key-value annotations; the chunker itself attaches none.
    pub metadata: Option<Vec<(String, String)>>,
}

/// The marker on which a document is split into page segments.
pub open spec fn page_marker() -> Seq<char> {
    seq!['\n', '\n', 'P', 'a', 'g', 'e', ' ']
}

/// The separator class used for word splitting.
pub open spec fn space_pred() -> spec_fn(char) -> bool {
    |c: char| is_space_char(c)
}

/// The words of a text: maximal whitespace-free runs.
pub open spec fn spec_words(s: Seq<char>) -> Seq<Seq<char>> {
    split_from(s, 0, space_pred())
}

/// The page segments of the suffix of `s` that starts at `i`, in order.
pub open spec fn spec_pages_from(s: Seq<char>, i: int) -> Seq<Seq<char>>
    decreases s.len() - i when 0 <= i <= s.len() via spec_pages_from_dec
{
    let f = first_occur_from(s, page_marker(), i);
    if f < 0 {
        seq![s.subrange(i, s.len() as int)]
    } else {
        seq![s.subrange(i, f)] + spec_pages_from(s, f + page_marker().len() as int)
    }
}

#[via_fn]
proof fn spec_pages_from_dec(s: Seq<char>, i: int) {
    lemma_first_occur_bounds(s, page_marker(), i);
}

/// The page segments of a whole text.  A text without the marker is a single
/// page.
pub open spec fn spec_pages(s: Seq<char>) -> Seq<Seq<char>> {
    spec_pages_from(s, 0)
}

/// Consecutive groups of at most `size` words; every group but the last has
/// exactly `size` words.
pub open spec fn spec_windows(ws: Seq<Seq<char>>, size: int) -> Seq<Seq<Seq<char>>>
    decreases ws.len() when size >= 1
{
    if ws.len() == 0 {
        Seq::empty()
    } else if ws.len() <= size {
        seq![ws]
    } else {
        seq![ws.take(size)] + spec_windows(ws.skip(size), size)
    }
}

/// Words joined by single spaces.
pub open spec fn join_words(ws: Seq<Seq<char>>) -> Seq<char>
    decreases ws.len(),
{
    if ws.len() == 0 {
        Seq::empty()
    } else if ws.len() == 1 {
        ws[0]
    } else {
        ws[0] + seq![' '] + join_words(ws.drop_first())
    }
}

/// The chunk texts of one page: each word window joined.
pub open spec fn page_chunk_texts(ws: Seq<Seq<char>>, size: int) -> Seq<Seq<char>> {
    spec_windows(ws, size).map_values(|w: Seq<Seq<char>>| join_words(w))
}

/// The (page number, chunk text) pairs of a page suffix, numbering the first
/// page `pageno`.
pub open spec fn chunk_items_from(pages: Seq<Seq<char>>, size: int, pageno: int) -> Seq<
    (int, Seq<char>),
>
    decreases pages.len(),
{
    if pages.len() == 0 {
        Seq::empty()
    } else {
        page_chunk_texts(spec_words(pages[0]), size).map_values(|t: Seq<char>| (pageno, t))
            + chunk_items_from(pages.drop_first(), size, pageno + 1)
    }
}

/// The (page number, chunk text) pairs of a whole document.
pub open spec fn chunk_items(s: Seq<char>, size: int) -> Seq<(int, Seq<char>)> {
    chunk_items_from(spec_pages(s), size, 1)
}

/// The views of a sequence of character vectors.
pub open spec fn views(ws: Seq<Vec<char>>) -> Seq<Seq<char>> {
    ws.map_values(|v: Vec<char>| v@)
}

/// The chunk texts of one page, each tagged with the page's number.
pub open spec fn tag_page(pageno: int, ts: Seq<Seq<char>>) -> Seq<(int, Seq<char>)> {
    ts.map_values(|t: Seq<char>| (pageno, t))
}

/// There are exactly `ceil(len / size)` windows.
pub proof fn lemma_windows_count(ws: Seq<Seq<char>>, size: int)
    requires
        size >= 1,
    ensures
        spec_windows(ws, size).len() == (ws.len() + size - 1) / size,
    decreases ws.len(),
{
    if ws.len() == 0 {
        assert((0 + size - 1) / size == 0) by (nonlinear_arith)
            requires
                size >= 1,
        ;
    } else if ws.len() <= size {
        assert((ws.len() + size - 1) / size == 1) by (nonlinear_arith)
            requires
                size >= 1 && 1 <= ws.len() <= size,
        ;
    } else {
        lemma_windows_count(ws.skip(size), size);
        assert(ws.skip(size).len() == ws.len() - size);
        assert((ws.len() - size + size - 1) / size + 1 == (ws.len() + size - 1) / size)
            by (nonlinear_arith)
            requires
                size >= 1 && ws.len() > size,
        ;
    }
}

/// Every window but the last holds exactly `size` words; the last holds
/// between one and `size`.
pub proof fn lemma_windows_sizes(ws: Seq<Seq<char>>, size: int)
    requires
        size >= 1,
    ensures
        forall|k: int|
            0 <= k < spec_windows(ws, size).len() ==> 1 <= (#[trigger] spec_windows(
                ws,
                size,
            )[k]).len() <= size,
        forall|k: int|
            0 <= k < spec_windows(ws, size).len() - 1 ==> (#[trigger] spec_windows(
                ws,
                size,
            )[k]).len() == size,
    decreases ws.len(),
{
    if ws.len() == 0 {
    } else if ws.len() <= size {
        assert(spec_windows(ws, size)[0] == ws);
    } else {
        lemma_windows_sizes(ws.skip(size), size);
        let win = spec_windows(ws, size);
        let tail = spec_windows(ws.skip(size), size);
        assert(tail.len() >= 1);
        assert forall|k: int| 0 <= k < win.len() implies 1 <= (#[trigger] win[k]).len() <= size by {
            if k == 0 {
                assert(win[0] == ws.take(size));
            } else {
                assert(win[k] == tail[k - 1]);
            }
        }
        assert forall|k: int| 0 <= k < win.len() - 1 implies (#[trigger] win[k]).len() == size by {
            if k == 0 {
                assert(win[0] == ws.take(size));
            } else {
                assert(win[k] == tail[k - 1]);
            }
        }
    }
}

/// The windows partition the word list: concatenated in order they give
/// back exactly the words.
pub proof fn lemma_windows_flatten(ws: Seq<Seq<char>>, size: int)
    requires
        size >= 1,
    ensures
        spec_windows(ws, size).flatten() == ws,
    decreases ws.len(),
{
    if ws.len() == 0 {
        assert(spec_windows(ws, size).flatten() =~= ws);
    } else if ws.len() <= size {
        let win = spec_windows(ws, size);
        assert(win.first() == ws);
        assert(win.drop_first() =~= Seq::<Seq<Seq<char>>>::empty());
        assert(Seq::<Seq<Seq<char>>>::empty().flatten() =~= Seq::<Seq<char>>::empty());
        assert(win.flatten() =~= ws);
    } else {
        lemma_windows_flatten(ws.skip(size), size);
        let win = spec_windows(ws, size);
        assert(win.first() == ws.take(size));
        assert(win.drop_first() =~= spec_windows(ws.skip(size), size));
        assert(win.flatten() == ws.take(size) + spec_windows(ws.skip(size), size).flatten());
        assert(ws.take(size) + ws.skip(size) =~= ws);
    }
}

/// A well-formed word list: every word non-empty and whitespace-free.
pub open spec fn wf_words(ws: Seq<Seq<char>>) -> bool {
    forall|k: int|
        0 <= k < ws.len() ==> (#[trigger] ws[k]).len() > 0 && forall|j: int|
            0 <= j < ws[k].len() ==> !is_space_char(#[trigger] ws[k][j])
}

/// A single non-empty, whitespace-free word splits to itself.
proof fn lemma_single_word(w: Seq<char>)
    requires
        w.len() > 0,
        forall|j: int| 0 <= j < w.len() ==> !is_space_char(#[trigger] w[j]),
    ensures
        spec_words(w) == seq![w],
{
    assert(!space_pred()(w[0]));
    assert(next_nomatch(w, 0, space_pred()) == 0);
    crate::text::lemma_next_match_exact(w, 0, w.len() as int, space_pred());
    assert(next_match(w, 0, space_pred()) == w.len() as int);
    assert(next_nomatch(w, w.len() as int, space_pred()) == w.len() as int);
    assert(split_from(w, w.len() as int, space_pred()) =~= Seq::<Seq<char>>::empty());
    assert(w.subrange(0, w.len() as int) =~= w);
    assert(spec_words(w) =~= seq![w]);
}

/// A join of well-formed words is non-empty and starts with the first
/// word's first character.
proof fn lemma_join_head(ws: Seq<Seq<char>>)
    requires
        ws.len() > 0,
        ws[0].len() > 0,
    ensures
        join_words(ws).len() > 0,
        join_words(ws)[0] == ws[0][0],
{
    if ws.len() == 1 {
    } else {
        assert(join_words(ws) == ws[0] + seq![' '] + join_words(ws.drop_first()));
        assert((ws[0] + seq![' '] + join_words(ws.drop_first()))[0] == ws[0][0]);
    }
}

/// Splitting the join of well-formed words on whitespace gives back
/// exactly those words.
pub proof fn lemma_words_join_roundtrip(ws: Seq<Seq<char>>)
    requires
        wf_words(ws),
    ensures
        spec_words(join_words(ws)) == ws,
    decreases ws.len(),
{
    if ws.len() == 0 {
        assert(spec_words(join_words(ws)) =~= ws);
    } else if ws.len() == 1 {
        assert(join_words(ws) == ws[0]);
        lemma_single_word(ws[0]);
        assert(seq![ws[0]] =~= ws);
    } else {
        let tail = ws.drop_first();
        let j = join_words(ws);
        let l0 = ws[0].len() as int;
        assert(j == ws[0] + seq![' '] + join_words(tail));
        assert forall|k: int|
            0 <= k < tail.len() implies (#[trigger] tail[k]).len() > 0 && forall|m: int|
            0 <= m < tail[k].len() ==> !is_space_char(#[trigger] tail[k][m]) by {
            assert(tail[k] == ws[k + 1]);
        }
        assert(tail[0] == ws[1]);
        lemma_join_head(tail);
        assert(j.len() == l0 + 1 + join_words(tail).len());
        assert forall|m: int| 0 <= m < l0 implies !space_pred()(#[trigger] j[m]) by {
            assert(j[m] == ws[0][m]);
        }
        assert(j[l0] == ' ');
        assert(space_pred()(j[l0]));
        assert(!space_pred()(j[0]));
        assert(next_nomatch(j, 0, space_pred()) == 0);
        crate::text::lemma_next_match_exact(j, 0, l0, space_pred());
        assert(next_match(j, 0, space_pred()) == l0);
        assert(split_from(j, 0, space_pred()) == seq![j.subrange(0, l0)] + split_from(
            j,
            l0,
            space_pred(),
        ));
        assert(j.subrange(0, l0) =~= ws[0]);
        assert(j[l0 + 1] == join_words(tail)[0]);
        assert(!space_pred()(j[l0 + 1]));
        assert(next_nomatch(j, l0, space_pred()) == next_nomatch(j, l0 + 1, space_pred()));
        assert(next_nomatch(j, l0 + 1, space_pred()) == l0 + 1);
        lemma_split_from_align(j, l0, space_pred());
        crate::text::lemma_split_shift(j, l0 + 1, space_pred());
        assert(j.skip(l0 + 1) =~= join_words(tail));
        lemma_words_join_roundtrip(tail);
        assert(split_from(j, l0, space_pred()) == tail);
        assert(seq![ws[0]] + tail =~= ws);
    }
}

/// Windows of a well-formed word list stay well-formed.
proof fn lemma_windows_wf(ws: Seq<Seq<char>>, size: int)
    requires
        size >= 1,
        wf_words(ws),
    ensures
        forall|k: int|
            0 <= k < spec_windows(ws, size).len() ==> wf_words(#[trigger] spec_windows(ws, size)[k]),
    decreases ws.len(),
{
    if ws.len() == 0 {
    } else if ws.len() <= size {
        assert(spec_windows(ws, size)[0] == ws);
    } else {
        assert(wf_words(ws.skip(size))) by {
            assert forall|k: int|
                0 <= k < ws.skip(size).len() implies (#[trigger] ws.skip(size)[k]).len() > 0
                && forall|m: int|
                0 <= m < ws.skip(size)[k].len() ==> !is_space_char(
                #[trigger] ws.skip(size)[k][m]) by {
                assert(ws.skip(size)[k] == ws[k + size]);
            }
        }
        lemma_windows_wf(ws.skip(size), size);
        let win = spec_windows(ws, size);
        assert forall|k: int| 0 <= k < win.len() implies wf_words(#[trigger] win[k]) by {
            if k == 0 {
                assert(win[0] == ws.take(size));
                assert forall|m: int|
                    0 <= m < ws.take(size).len() implies (#[trigger] ws.take(size)[m]).len() > 0
                    && forall|n: int|
                    0 <= n < ws.take(size)[m].len() ==> !is_space_char(
                    #[trigger] ws.take(size)[m][n]) by {
                    assert(ws.take(size)[m] == ws[m]);
                }
            } else {
                assert(win[k] == spec_windows(ws.skip(size), size)[k - 1]);
            }
        }
    }
}

/// A text without the page marker is a single page.
pub proof fn lemma_single_page(s: Seq<char>)
    requires
        !contains_seq(s, page_marker()),
    ensures
        spec_pages(s) == seq![s],
{
    crate::text::lemma_first_occur_none(s, page_marker(), 0);
    if first_occur_from(s, page_marker(), 0) >= 0 {
        let k = choose|k: int| 0 <= k && occurs_at(s, page_marker(), k);
        assert(contains_seq(s, page_marker()));
    }
    assert(s.subrange(0, s.len() as int) =~= s);
}

/// On a text without page markers holding `W` words, chunking with window
/// `size` yields `ceil(W / size)` chunks, every chunk on page 1, the `k`-th
/// chunk joining exactly the `k`-th word window — the windows partition the
/// words in order, and every window but the last holds exactly `size` words,
/// the last between one and `size`.
pub proof fn lemma_chunk_no_marker(s: Seq<char>, size: int)
    requires
        size >= 1,
        !contains_seq(s, page_marker()),
    ensures
        chunk_items(s, size).len() == (spec_words(s).len() + size - 1) / size,
        forall|k: int|
            0 <= k < chunk_items(s, size).len() ==> (#[trigger] chunk_items(s, size)[k]).0 == 1,
        forall|k: int|
            0 <= k < chunk_items(s, size).len() ==> (#[trigger] chunk_items(s, size)[k]).1
                == join_words(spec_windows(spec_words(s), size)[k]),
        spec_windows(spec_words(s), size).flatten() == spec_words(s),
        forall|k: int|
            0 <= k < chunk_items(s, size).len() ==> 1 <= (#[trigger] spec_windows(
                spec_words(s),
                size,
            )[k]).len() <= size,
        forall|k: int|
            0 <= k < chunk_items(s, size).len() - 1 ==> (#[trigger] spec_windows(
                spec_words(s),
                size,
            )[k]).len() == size,
        forall|k: int|
            0 <= k < chunk_items(s, size).len() ==> spec_words(
                (#[trigger] chunk_items(s, size)[k]).1,
            ) == spec_windows(spec_words(s), size)[k],
{
    lemma_single_page(s);
    let pages = spec_pages(s);
    assert(pages[0] == s);
    assert(pages.drop_first() =~= Seq::<Seq<char>>::empty());
    let ws = spec_words(s);
    let items = chunk_items(s, size);
    assert(chunk_items_from(Seq::<Seq<char>>::empty(), size, 2) =~= Seq::<
        (int, Seq<char>),
    >::empty());
    assert(items =~= tag_page(1, page_chunk_texts(ws, size)));
    lemma_windows_count(ws, size);
    lemma_windows_sizes(ws, size);
    lemma_windows_flatten(ws, size);
    crate::text::lemma_split_from_wf(s, 0, space_pred());
    assert(wf_words(ws)) by {
        assert forall|k: int|
            0 <= k < ws.len() implies (#[trigger] ws[k]).len() > 0 && forall|j: int|
            0 <= j < ws[k].len() ==> !is_space_char(#[trigger] ws[k][j]) by {
            assert(ws[k].len() > 0 && forall|j: int|
                0 <= j < ws[k].len() ==> !space_pred()(#[trigger] ws[k][j]));
            assert forall|j: int| 0 <= j < ws[k].len() implies !is_space_char(
            #[trigger] ws[k][j]) by {
                assert(!space_pred()(ws[k][j]));
            }
        }
    }
    lemma_windows_wf(ws, size);
    assert forall|k: int| 0 <= k < items.len() implies (#[trigger] items[k]).0 == 1 && items[k].1
        == join_words(spec_windows(ws, size)[k]) && spec_words(items[k].1) == spec_windows(
        ws,
        size,
    )[k] by {
        assert(items[k] == (1int, page_chunk_texts(ws, size)[k]));
        assert(page_chunk_texts(ws, size)[k] == join_words(spec_windows(ws, size)[k]));
        lemma_words_join_roundtrip(spec_windows(ws, size)[k]);
    }
}

/// Joining one more word appends a separating space unless the join was
/// empty so far.
pub proof fn lemma_join_push(ws: Seq<Seq<char>>, x: Seq<char>)
    ensures
        join_words(ws.push(x)) == if ws.len() == 0 {
            x
        } else {
            join_words(ws) + seq![' '] + x
        },
    decreases ws.len(),
{
    let p = ws.push(x);
    if ws.len() == 0 {
        assert(p.len() == 1);
        assert(join_words(p) == p[0]);
    } else {
        assert(p[0] == ws[0]);
        assert(p.drop_first() =~= ws.drop_first().push(x));
        lemma_join_push(ws.drop_first(), x);
        if ws.len() == 1 {
            assert(join_words(ws) == ws[0]);
            assert(join_words(p) == p[0] + seq![' '] + join_words(p.drop_first()));
            assert(join_words(p.drop_first()) == x);
        } else {
            assert(join_words(p) == p[0] + seq![' '] + join_words(p.drop_first()));
            assert(join_words(p.drop_first()) == join_words(ws.drop_first()) + seq![' '] + x);
            assert((ws[0] + seq![' '] + (join_words(ws.drop_first()) + seq![' '] + x)) =~= (ws[0]
                + seq![' '] + join_words(ws.drop_first()) + seq![' '] + x));
        }
    }
}

/// Builds the fixed page-boundary marker.
fn make_marker() -> (r: Vec<char>)
    ensures
        r@ == page_marker(),
{
    let mut r: Vec<char> = Vec::new();
    r.push('\n');
    r.push('\n');
    r.push('P');
    r.push('a');
    r.push('g');
    r.push('e');
    r.push(' ');
    proof {
        assert(r@ =~= page_marker());
    }
    r
}

/// First non-whitespace position at or after `from`.
fn scan_nonspace(h: &Vec<char>, from: usize) -> (r: usize)
    requires
        from <= h@.len(),
    ensures
        r as int == next_nomatch(h@, from as int, space_pred()),
        from <= r <= h@.len(),
{
    proof {
        lemma_next_nomatch(h@, from as int, space_pred());
    }
    let mut i: usize = from;
    while i < h.len() && space_char(h[i])
        invariant
            from <= i <= h@.len(),
            next_nomatch(h@, from as int, space_pred()) == next_nomatch(
                h@,
                i as int,
                space_pred(),
            ),
        decreases h@.len() - i,
    {
        assert(space_pred()(h@[i as int]));
        i = i + 1;
    }
    proof {
        if i < h@.len() {
            assert(!space_pred()(h@[i as int]));
        }
        lemma_next_nomatch(h@, from as int, space_pred());
    }
    i
}

/// First whitespace position at or after `from`.
fn scan_space(h: &Vec<char>, from: usize) -> (r: usize)
    requires
        from <= h@.len(),
    ensures
        r as int == next_match(h@, from as int, space_pred()),
        from <= r <= h@.len(),
{
    proof {
        lemma_next_match(h@, from as int, space_pred());
    }
    let mut i: usize = from;
    while i < h.len() && !space_char(h[i])
        invariant
            from <= i <= h@.len(),
            next_match(h@, from as int, space_pred()) == next_match(h@, i as int, space_pred()),
        decreases h@.len() - i,
    {
        assert(!space_pred()(h@[i as int]));
        i = i + 1;
    }
    proof {
        if i < h@.len() {
            assert(space_pred()(h@[i as int]));
        }
        lemma_next_match(h@, from as int, space_pred());
    }
    i
}

/// Splitting at the first position with a non-separator character does not
/// change the outcome.
pub proof fn lemma_split_from_align(s: Seq<char>, i: int, p: spec_fn(char) -> bool)
    requires
        0 <= i <= s.len(),
    ensures
        split_from(s, i, p) == split_from(s, next_nomatch(s, i, p), p),
{
    lemma_next_nomatch(s, i, p);
    let ns = next_nomatch(s, i, p);
    if ns < s.len() {
        assert(!p(s[ns]));
    }
    assert(next_nomatch(s, ns, p) == ns);
}

/// Splits a text into its words, as `spec_words` describes.
pub fn split_words(h: &Vec<char>) -> (r: Vec<Vec<char>>)
    ensures
        views(r@) == spec_words(h@),
{
    let mut r: Vec<Vec<char>> = Vec::new();
    let mut i: usize = scan_nonspace(h, 0);
    proof {
        lemma_split_from_align(h@, 0, space_pred());
        assert(next_nomatch(h@, i as int, space_pred()) == i as int);
    }
    while i < h.len()
        invariant
            i <= h@.len(),
            next_nomatch(h@, i as int, space_pred()) == i as int,
            spec_words(h@) == views(r@) + split_from(h@, i as int, space_pred()),
        decreases h@.len() - i,
    {
        let we = scan_space(h, i);
        proof {
            if we == i {
                assert(space_pred()(h@[i as int]));
                assert(false);
            }
        }
        let word = crate::text::copy_span(h, i, we);
        let ghost old_r = r@;
        let ghost old_i = i as int;
        r.push(word);
        proof {
            assert(split_from(h@, old_i, space_pred()) == seq![
                h@.subrange(old_i, we as int),
            ] + split_from(h@, we as int, space_pred()));
            lemma_split_from_align(h@, we as int, space_pred());
            assert(views(r@) =~= views(old_r).push(word@));
            assert(views(old_r).push(word@) + split_from(
                h@,
                next_nomatch(h@, we as int, space_pred()),
                space_pred(),
            ) =~= views(old_r) + split_from(h@, old_i, space_pred()));
        }
        i = scan_nonspace(h, we);
    }
    proof {
        assert(split_from(h@, i as int, space_pred()) =~= Seq::<Seq<char>>::empty());
        assert(views(r@) + Seq::<Seq<char>>::empty() =~= views(r@));
    }
    r
}

/// Splits a document into its page segments, as `spec_pages` describes.
fn split_pages(h: &Vec<char>) -> (r: Vec<Vec<char>>)
    ensures
        views(r@) == spec_pages(h@),
{
    let marker = make_marker();
    let hl = h.len();
    let mut r: Vec<Vec<char>> = Vec::new();
    let mut i: usize = 0;
    loop
        invariant
            i <= hl,
            hl == h@.len(),
            marker@ == page_marker(),
            spec_pages(h@) == views(r@) + spec_pages_from(h@, i as int),
        decreases h@.len() - i,
    {
        proof {
            lemma_first_occur_bounds(h@, marker@, i as int);
        }
        match crate::text::find_from(h, &marker, i) {
            Some(f) => {
                let seg = crate::text::copy_span(h, i, f);
                let ghost old_r = r@;
                let ghost old_i = i as int;
                r.push(seg);
                i = f + marker.len();
                proof {
                    assert(spec_pages_from(h@, old_i) == seq![
                        h@.subrange(old_i, f as int),
                    ] + spec_pages_from(h@, i as int));
                    assert(views(r@) =~= views(old_r).push(seg@));
                    assert(views(old_r).push(seg@) + spec_pages_from(h@, i as int) =~= views(
                        old_r,
                    ) + spec_pages_from(h@, old_i));
                }
            },
            None => {
                let seg = crate::text::copy_span(h, i, h.len());
                let ghost old_r = r@;
                let ghost old_i = i as int;
                r.push(seg);
                proof {
                    assert(spec_pages_from(h@, old_i) == seq![h@.subrange(old_i, h@.len() as int)]);
                    assert(views(r@) =~= views(old_r).push(seg@));
                    assert(views(old_r).push(seg@) =~= views(old_r) + spec_pages_from(h@, old_i));
                    assert(views(r@) =~= spec_pages(h@));
                }
                return r;
            },
        }
    }
}

/// Joins the words of `ws` between positions `from` and `to` with single
/// spaces.
fn join_window(ws: &Vec<Vec<char>>, from: usize, to: usize) -> (r: String)
    requires
        from <= to <= ws@.len(),
    ensures
        r@ == join_words(views(ws@).subrange(from as int, to as int)),
{
    let mut out: Vec<char> = Vec::new();
    let mut k: usize = from;
    while k < to
        invariant
            from <= k <= to <= ws@.len(),
            out@ == join_words(views(ws@).subrange(from as int, k as int)),
        decreases to - k,
    {
        let ghost pre = views(ws@).subrange(from as int, k as int);
        if k > from {
            out.push(' ');
        }
        let w = &ws[k];
        let mut j: usize = 0;
        let ghost out_before = out@;
        while j < w.len()
            invariant
                j <= w@.len(),
                w@ == ws@[k as int]@,
                out@ == out_before + w@.take(j as int),
            decreases w@.len() - j,
        {
            out.push(w[j]);
            assert(w@.take((j + 1) as int) =~= w@.take(j as int).push(w@[j as int]));
            assert(out_before + w@.take(j as int).push(w@[j as int]) =~= (out_before + w@.take(
                j as int,
            )).push(w@[j as int]));
            j = j + 1;
        }
        proof {
            assert(w@.take(w@.len() as int) =~= w@);
            lemma_join_push(pre, ws@[k as int]@);
            assert(views(ws@).subrange(from as int, (k + 1) as int) =~= pre.push(
                views(ws@)[k as int],
            ));
            if k == from {
                assert(out@ =~= ws@[k as int]@);
            } else {
                assert(out@ =~= join_words(pre) + seq![' '] + ws@[k as int]@);
            }
        }
        k = k + 1;
    }
    string_from_chars(&out)
}

impl DocumentChunk {
    /// Splits a document into page-aware fixed-size word windows: the
    /// `k`-th chunk of the result is the `k`-th item of `chunk_items`,
    /// pages numbered from 1 and chunk indexes counted across the whole
    /// document.
    pub fn chunk(text: &str, chunk_size: usize) -> (r: Vec<DocumentChunk>)
        requires
            chunk_size >= 1,
        ensures
            r@.len() == chunk_items(text@, chunk_size as int).len(),
            forall|k: int|
                0 <= k < r@.len() ==> {
                    &&& #[trigger] r@[k].page_number as int == chunk_items(
                        text@,
                        chunk_size as int,
                    )[k].0
                    &&& r@[k].text@ == chunk_items(text@, chunk_size as int)[k].1
                    &&& r@[k].chunk_index == k
                    &&& r@[k].metadata is None
                },
    {
        let cs = chars_vec(text);
        let pages = split_pages(&cs);
        let np = pages.len();
        let ghost items = chunk_items(text@, chunk_size as int);
        let ghost size = chunk_size as int;
        let mut r: Vec<DocumentChunk> = Vec::new();
        let mut p: usize = 0;
        proof {
            assert(views(pages@).skip(0) =~= views(pages@));
        }
        while p < np
            invariant
                chunk_size >= 1,
                size == chunk_size as int,
                p <= np,
                np == pages@.len(),
                items == chunk_items(text@, size),
                views(pages@) == spec_pages(text@),
                r@.len() + chunk_items_from(views(pages@).skip(p as int), size, p + 1).len()
                    == items.len(),
                forall|k: int|
                    0 <= k < chunk_items_from(views(pages@).skip(p as int), size, p + 1).len()
                        ==> #[trigger] chunk_items_from(views(pages@).skip(p as int), size, p + 1)[k]
                        == items[r@.len() + k],
                forall|k: int|
                    0 <= k < r@.len() ==> {
                        &&& #[trigger] r@[k].page_number as int == items[k].0
                        &&& r@[k].text@ == items[k].1
                        &&& r@[k].chunk_index == k
                        &&& r@[k].metadata is None
                    },
            decreases pages@.len() - p,
        {
            let ws = split_words(&pages[p]);
            let ghost pviews = views(pages@);
            let ghost wsv = views(ws@);
            proof {
                assert(pviews.skip(p as int)[0] == pviews[p as int]);
                assert(wsv =~= spec_words(pviews[p as int]));
                assert(pviews.skip(p as int).drop_first() =~= pviews.skip(p as int + 1));
                let tg = tag_page(p + 1, page_chunk_texts(wsv, size));
                let rest = chunk_items_from(pviews.skip(p as int + 1), size, p + 2);
                assert(chunk_items_from(pviews.skip(p as int), size, p + 1) == tg + rest);
                assert(wsv.skip(0) =~= wsv);
                assert forall|k: int| 0 <= k < tg.len() implies #[trigger] tg[k] == items[r@.len()
                    + k] by {
                    assert((tg + rest)[k] == tg[k]);
                    assert(chunk_items_from(pviews.skip(p as int), size, p + 1)[k] == items[r@.len()
                        + k]);
                }
                assert forall|k: int| 0 <= k < rest.len() implies #[trigger] rest[k] == items[
                    r@.len() + tg.len() + k] by {
                    assert((tg + rest)[tg.len() + k] == rest[k]);
                    assert(chunk_items_from(pviews.skip(p as int), size, p + 1)[tg.len() + k]
                        == items[r@.len() + (tg.len() + k)]);
                }
            }
            let mut w: usize = 0;
            while w < ws.len()
                invariant
                    chunk_size >= 1,
                    size == chunk_size as int,
                    p < np,
                    np == pages@.len(),
                    w <= ws@.len(),
                    w < ws@.len() ==> (ws@.len() - w >= 1),
                    items == chunk_items(text@, size),
                    pviews == views(pages@),
                    wsv == views(ws@),
                    r@.len() + tag_page(p + 1, page_chunk_texts(wsv.skip(w as int), size)).len()
                        + chunk_items_from(pviews.skip(p as int + 1), size, p + 2).len()
                        == items.len(),
                    forall|k: int|
                        0 <= k < tag_page(
                            p + 1,
                            page_chunk_texts(wsv.skip(w as int), size),
                        ).len() ==> #[trigger] tag_page(
                            p + 1,
                            page_chunk_texts(wsv.skip(w as int), size),
                        )[k] == items[r@.len() + k],
                    forall|k: int|
                        0 <= k < chunk_items_from(pviews.skip(p as int + 1), size, p + 2).len()
                            ==> #[trigger] chunk_items_from(
                            pviews.skip(p as int + 1),
                            size,
                            p + 2,
                        )[k] == items[r@.len() + tag_page(
                            p + 1,
                            page_chunk_texts(wsv.skip(w as int), size),
                        ).len() + k],
                    forall|k: int|
                        0 <= k < r@.len() ==> {
                            &&& #[trigger] r@[k].page_number as int == items[k].0
                            &&& r@[k].text@ == items[k].1
                            &&& r@[k].chunk_index == k
                            &&& r@[k].metadata is None
                        },
                decreases ws@.len() - w,
            {
                let e = if chunk_size < ws.len() - w {
                    w + chunk_size
                } else {
                    ws.len()
                };
                let ctext = join_window(&ws, w, e);
                let ghost rem = wsv.skip(w as int);
                proof {
                    if rem.len() <= size {
                        assert(spec_windows(rem, size) == seq![rem]);
                        assert(rem =~= wsv.subrange(w as int, e as int));
                        assert(page_chunk_texts(rem, size) =~= seq![join_words(rem)]);
                    } else {
                        assert(spec_windows(rem, size) == seq![rem.take(size)] + spec_windows(
                            rem.skip(size),
                            size,
                        ));
                        assert(rem.take(size) =~= wsv.subrange(w as int, e as int));
                        assert(rem.skip(size) =~= wsv.skip(e as int));
                        assert(page_chunk_texts(rem, size) =~= seq![
                            join_words(wsv.subrange(w as int, e as int)),
                        ] + page_chunk_texts(wsv.skip(e as int), size));
                    }
                }
                let idx = r.len();
                let ghost old_r = r@;
                r.push(DocumentChunk {
                    text: ctext,
                    page_number: p + 1,
                    chunk_index: idx,
                    metadata: None,
                });
                proof {
                    let tagged_old = tag_page(p + 1, page_chunk_texts(rem, size));
                    assert(tagged_old[0] == (p + 1, join_words(wsv.subrange(w as int, e as int))));
                    assert(tagged_old[0] == items[old_r.len() as int]);
                    if rem.len() > size {
                        let tagged_new = tag_page(p + 1, page_chunk_texts(wsv.skip(e as int), size));
                        assert forall|k: int| 0 <= k < tagged_new.len() implies #[trigger] tagged_new[k]
                            == items[r@.len() + k] by {
                            assert(tagged_old[k + 1] == tagged_new[k]);
                        }
                    } else {
                        assert(page_chunk_texts(wsv.skip(e as int), size) =~= Seq::<
                            Seq<char>,
                        >::empty());
                        assert(tag_page(p + 1, page_chunk_texts(wsv.skip(e as int), size)) =~= Seq::<
                            (int, Seq<char>),
                        >::empty());
                    }
                }
                w = e;
            }
            proof {
                assert(wsv.skip(w as int) =~= Seq::<Seq<char>>::empty());
                assert(page_chunk_texts(wsv.skip(w as int), size) =~= Seq::<Seq<char>>::empty());
                assert(tag_page(p + 1, page_chunk_texts(wsv.skip(w as int), size)) =~= Seq::<
                    (int, Seq<char>),
                >::empty());
            }
            p = p + 1;
        }
        proof {
            assert(views(pages@).skip(p as int) =~= Seq::<Seq<char>>::empty());
            assert(chunk_items_from(views(pages@).skip(p as int), size, p + 1) =~= Seq::<
                (int, Seq<char>),
            >::empty());
        }
        r
    }
}

} // verus!
