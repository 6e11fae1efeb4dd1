//! Structured insights extracted from document chunks, and the parser that
//! recovers them from a completion backend's response through a three-stage
//! chain: parse as-is, strip wrapping and re-parse, and finally fall back to
//! one insight per non-empty line.

use vstd::prelude::*;

use crate::chunker::DocumentChunk;
use crate::text::{
    chars_vec, is_space_char, next_match, next_nomatch, space_char, split_from, string_from_chars,
};

verus! {

/// Relevance assigned to an insight recovered by the line fallback, in
/// thousandths.
pub const FALLBACK_RELEVANCE_MILLI: i64 = 800;

/// Provenance and caller-supplied annotations attached to an insight.
pub struct InsightMeta {
    /// 1-based page of the chunk the insight came from.
    pub page: usize,
    /// 0-based document-wide index of that chunk.
    pub chunk: usize,
    /// Caller-supplied key-value annotations, copied onto every insight.
    pub extra: Vec<(String, String)>,
}

/// One insight: a text with a relevance score, optionally an embedding and
/// provenance metadata.  Relevance is kept in thousandths.
pub struct Insight {
    pub text: String,
    pub relevance_milli: i64,
    pub embedding: Option<Vec<i64>>,
    pub metadata: Option<InsightMeta>,
}

/// A chunk together with everything its pipeline run produced; what the
/// embedding cache stores.
pub struct ProcessedChunk {
    pub chunk: DocumentChunk,
    pub embedding: Option<Vec<i64>>,
    pub insights: Vec<Insight>,
}

/// Mathematical value of an `InsightMeta`.
pub ghost struct InsightMetaView {
    pub page: int,
    pub chunk: int,
    pub extra: Seq<(Seq<char>, Seq<char>)>,
}

/// Mathematical value of an `Insight`.
pub ghost struct InsightView {
    pub text: Seq<char>,
    pub relevance_milli: int,
    pub embedding: Option<Seq<i64>>,
    pub metadata: Option<InsightMetaView>,
}

/// Mathematical value of a `DocumentChunk`.
pub ghost struct DocumentChunkView {
    pub text: Seq<char>,
    pub page_number: int,
    pub chunk_index: int,
    pub metadata: Option<Seq<(Seq<char>, Seq<char>)>>,
}

/// Mathematical value of a `ProcessedChunk`.
pub ghost struct ProcessedChunkView {
    pub chunk: DocumentChunkView,
    pub embedding: Option<Seq<i64>>,
    pub insights: Seq<InsightView>,
}

/// The views of a list of string pairs.
pub open spec fn pairs_view(v: Seq<(String, String)>) -> Seq<(Seq<char>, Seq<char>)> {
    v.map_values(|p: (String, String)| (p.0@, p.1@))
}

impl View for InsightMeta {
    type V = InsightMetaView;

    open spec fn view(&self) -> InsightMetaView {
        InsightMetaView {
            page: self.page as int,
            chunk: self.chunk as int,
            extra: pairs_view(self.extra@),
        }
    }
}

impl View for Insight {
    type V = InsightView;

    open spec fn view(&self) -> InsightView {
        InsightView {
            text: self.text@,
            relevance_milli: self.relevance_milli as int,
            embedding: match self.embedding {
                Some(e) => Some(e@),
                None => None,
            },
            metadata: match self.metadata {
                Some(m) => Some(m@),
                None => None,
            },
        }
    }
}

impl View for DocumentChunk {
    type V = DocumentChunkView;

    open spec fn view(&self) -> DocumentChunkView {
        DocumentChunkView {
            text: self.text@,
            page_number: self.page_number as int,
            chunk_index: self.chunk_index as int,
            metadata: match self.metadata {
                Some(m) => Some(pairs_view(m@)),
                None => None,
            },
        }
    }
}

impl View for ProcessedChunk {
    type V = ProcessedChunkView;

    open spec fn view(&self) -> ProcessedChunkView {
        ProcessedChunkView {
            chunk: self.chunk@,
            embedding: match self.embedding {
                Some(e) => Some(e@),
                None => None,
            },
            insights: self.insights@.map_values(|i: Insight| i@),
        }
    }
}

/// Copies a list of string pairs, preserving its value.
pub fn clone_pairs(v: &Vec<(String, String)>) -> (r: Vec<(String, String)>)
    ensures
        pairs_view(r@) == pairs_view(v@),
        r@.len() == v@.len(),
{
    let mut r: Vec<(String, String)> = Vec::new();
    let mut i: usize = 0;
    while i < v.len()
        invariant
            i <= v@.len(),
            r@.len() == i,
            forall|k: int|
                0 <= k < i ==> (#[trigger] r@[k]).0@ == v@[k].0@ && r@[k].1@ == v@[k].1@,
        decreases v@.len() - i,
    {
        let (a, b) = (&v[i].0, &v[i].1);
        r.push((a.clone(), b.clone()));
        i = i + 1;
    }
    proof {
        assert(pairs_view(r@) =~= pairs_view(v@));
    }
    r
}

/// Copies an embedding vector, preserving its value.
pub fn clone_embedding(v: &Vec<i64>) -> (r: Vec<i64>)
    ensures
        r@ == v@,
{
    let mut r: Vec<i64> = Vec::new();
    let mut i: usize = 0;
    while i < v.len()
        invariant
            i <= v@.len(),
            r@ == v@.take(i as int),
        decreases v@.len() - i,
    {
        r.push(v[i]);
        assert(v@.take((i + 1) as int) =~= v@.take(i as int).push(v@[i as int]));
        i = i + 1;
    }
    proof {
        assert(v@.take(v@.len() as int) =~= v@);
    }
    r
}

impl Clone for InsightMeta {
    fn clone(&self) -> (r: Self)
        ensures
            r@ == self@,
    {
        InsightMeta { page: self.page, chunk: self.chunk, extra: clone_pairs(&self.extra) }
    }
}

impl Clone for Insight {
    fn clone(&self) -> (r: Self)
        ensures
            r@ == self@,
    {
        Insight {
            text: self.text.clone(),
            relevance_milli: self.relevance_milli,
            embedding: match &self.embedding {
                Some(e) => Some(clone_embedding(e)),
                None => None,
            },
            metadata: match &self.metadata {
                Some(m) => Some(m.clone()),
                None => None,
            },
        }
    }
}

impl Clone for DocumentChunk {
    fn clone(&self) -> (r: Self)
        ensures
            r@ == self@,
    {
        DocumentChunk {
            text: self.text.clone(),
            page_number: self.page_number,
            chunk_index: self.chunk_index,
            metadata: match &self.metadata {
                Some(m) => Some(clone_pairs(m)),
                None => None,
            },
        }
    }
}

/// Copies a list of insights, preserving its value.
pub fn clone_insights(v: &Vec<Insight>) -> (r: Vec<Insight>)
    ensures
        r@.map_values(|i: Insight| i@) == v@.map_values(|i: Insight| i@),
        r@.len() == v@.len(),
{
    let mut r: Vec<Insight> = Vec::new();
    let mut i: usize = 0;
    while i < v.len()
        invariant
            i <= v@.len(),
            r@.len() == i,
            forall|k: int| 0 <= k < i ==> (#[trigger] r@[k])@ == v@[k]@,
        decreases v@.len() - i,
    {
        r.push(v[i].clone());
        i = i + 1;
    }
    proof {
        assert(r@.map_values(|i: Insight| i@) =~= v@.map_values(|i: Insight| i@));
    }
    r
}

impl Clone for ProcessedChunk {
    fn clone(&self) -> (r: Self)
        ensures
            r@ == self@,
    {
        ProcessedChunk {
            chunk: self.chunk.clone(),
            embedding: match &self.embedding {
                Some(e) => Some(clone_embedding(e)),
                None => None,
            },
            insights: clone_insights(&self.insights),
        }
    }
}

/// Text with leading whitespace removed.
pub open spec fn trim_start(s: Seq<char>) -> Seq<char>
    decreases s.len(),
{
    if s.len() > 0 && is_space_char(s.first()) {
        trim_start(s.drop_first())
    } else {
        s
    }
}

/// Text with trailing whitespace removed.
pub open spec fn trim_end(s: Seq<char>) -> Seq<char>
    decreases s.len(),
{
    if s.len() > 0 && is_space_char(s.last()) {
        trim_end(s.drop_last())
    } else {
        s
    }
}

/// Text with surrounding whitespace removed.
pub open spec fn trim_seq(s: Seq<char>) -> Seq<char> {
    trim_end(trim_start(s))
}

/// Text with every leading and trailing occurrence of one character
/// removed.
pub open spec fn trim_char(s: Seq<char>, c: char) -> Seq<char>
    decreases s.len(),
{
    if s.len() > 0 && s.first() == c {
        trim_char(s.drop_first(), c)
    } else if s.len() > 0 && s.last() == c {
        trim_char(s.drop_last(), c)
    } else {
        s
    }
}

/// Text with every successive copy of a non-empty prefix removed.
pub open spec fn strip_prefix_repeat(s: Seq<char>, p: Seq<char>) -> Seq<char>
    decreases s.len() when p.len() > 0
{
    if p.len() <= s.len() && s.take(p.len() as int) == p {
        strip_prefix_repeat(s.skip(p.len() as int), p)
    } else {
        s
    }
}

/// Text with every single quote turned into a double quote.
pub open spec fn normalize_quotes(s: Seq<char>) -> Seq<char> {
    s.map_values(
        |c: char|
            if c == '\'' {
                '"'
            } else {
                c
            },
    )
}

/// The cleaning that precedes parsing: trim, strip backtick fences, strip
/// a leading code-fence language tag, normalize quotes, trim again.
pub open spec fn spec_clean_response(s: Seq<char>) -> Seq<char> {
    trim_seq(
        normalize_quotes(
            strip_prefix_repeat(
                strip_prefix_repeat(trim_char(trim_seq(s), '`'), "json"@),
                "JSON"@,
            ),
        ),
    )
}

/// Removes surrounding whitespace, as `trim_seq` describes.
pub fn trim_chars(v: &Vec<char>) -> (r: Vec<char>)
    ensures
        r@ == trim_seq(v@),
{
    let mut a: usize = 0;
    let n = v.len();
    proof {
        assert(v@.skip(0) =~= v@);
    }
    while a < n && space_char(v[a])
        invariant
            a <= n,
            n == v@.len(),
            trim_start(v@) == trim_start(v@.skip(a as int)),
        decreases n - a,
    {
        assert(v@.skip(a as int).drop_first() =~= v@.skip(a + 1));
        a = a + 1;
    }
    proof {
        if a < n {
            assert(trim_start(v@.skip(a as int)) == v@.skip(a as int));
        } else {
            assert(v@.skip(a as int) =~= Seq::<char>::empty());
        }
    }
    let mut b: usize = n;
    while b > a && space_char(v[b - 1])
        invariant
            a <= b <= n,
            n == v@.len(),
            trim_start(v@) == v@.skip(a as int),
            a < n ==> !is_space_char(v@[a as int]),
            trim_end(v@.subrange(a as int, b as int)) == trim_end(trim_start(v@)),
        decreases b,
    {
        assert(v@.subrange(a as int, b as int).drop_last() =~= v@.subrange(a as int, b - 1));
        assert(v@.subrange(a as int, b as int).last() == v@[b - 1]);
        b = b - 1;
    }
    proof {
        let sub = v@.subrange(a as int, b as int);
        if b > a {
            assert(sub.last() == v@[b - 1]);
            assert(trim_end(sub) == sub);
        } else {
            assert(sub =~= Seq::<char>::empty());
        }
    }
    let r = crate::text::copy_span(v, a, b);
    r
}

/// Removes surrounding copies of one character, as `trim_char` describes.
pub fn trim_char_vec(v: &Vec<char>, c: char) -> (r: Vec<char>)
    ensures
        r@ == trim_char(v@, c),
{
    let mut a: usize = 0;
    let mut b: usize = v.len();
    proof {
        assert(v@.subrange(0, v@.len() as int) =~= v@);
    }
    while a < b && (v[a] == c || v[b - 1] == c)
        invariant
            a <= b <= v@.len(),
            trim_char(v@, c) == trim_char(v@.subrange(a as int, b as int), c),
        decreases b - a,
    {
        if v[a] == c {
            assert(v@.subrange(a as int, b as int).drop_first() =~= v@.subrange(a + 1, b as int));
            a = a + 1;
        } else {
            assert(v@.subrange(a as int, b as int).drop_last() =~= v@.subrange(a as int, b - 1));
            b = b - 1;
        }
    }
    proof {
        let sub = v@.subrange(a as int, b as int);
        if a < b {
            assert(sub.first() == v@[a as int] && sub.last() == v@[b - 1]);
            assert(trim_char(sub, c) == sub);
        } else {
            assert(sub =~= Seq::<char>::empty());
        }
    }
    crate::text::copy_span(v, a, b)
}

/// Removes successive copies of a non-empty prefix, as
/// `strip_prefix_repeat` describes.
pub fn strip_prefix_vec(v: &Vec<char>, p: &Vec<char>) -> (r: Vec<char>)
    requires
        p@.len() > 0,
    ensures
        r@ == strip_prefix_repeat(v@, p@),
{
    let mut a: usize = 0;
    proof {
        assert(v@.skip(0) =~= v@);
    }
    loop
        invariant
            a <= v@.len(),
            p@.len() > 0,
            strip_prefix_repeat(v@, p@) == strip_prefix_repeat(v@.skip(a as int), p@),
        ensures
            a <= v@.len(),
            strip_prefix_repeat(v@, p@) == v@.skip(a as int),
        decreases v@.len() - a,
    {
        if p.len() > v.len() - a {
            proof {
                assert(strip_prefix_repeat(v@.skip(a as int), p@) == v@.skip(a as int));
            }
            break ;
        }
        if crate::text::match_at(v, p, a) {
            proof {
                assert(v@.skip(a as int).take(p@.len() as int) =~= v@.subrange(
                    a as int,
                    a + p@.len(),
                ));
                assert(v@.skip(a as int).skip(p@.len() as int) =~= v@.skip(a + p@.len()));
            }
            a = a + p.len();
        } else {
            proof {
                assert(v@.skip(a as int).take(p@.len() as int) =~= v@.subrange(
                    a as int,
                    a + p@.len(),
                ));
                assert(strip_prefix_repeat(v@.skip(a as int), p@) == v@.skip(a as int));
            }
            break ;
        }
    }
    proof {
        assert(v@.subrange(a as int, v@.len() as int) =~= v@.skip(a as int));
    }
    crate::text::copy_span(v, a, v.len())
}

/// Turns every single quote into a double quote, as `normalize_quotes`
/// describes.
pub fn normalize_quotes_vec(v: &Vec<char>) -> (r: Vec<char>)
    ensures
        r@ == normalize_quotes(v@),
{
    let mut r: Vec<char> = Vec::new();
    let mut i: usize = 0;
    while i < v.len()
        invariant
            i <= v@.len(),
            r@.len() == i,
            forall|k: int| 0 <= k < i ==> r@[k] == normalize_quotes(v@)[k],
        decreases v@.len() - i,
    {
        let c = v[i];
        if c == '\'' {
            r.push('"');
        } else {
            r.push(c);
        }
        i = i + 1;
    }
    proof {
        assert(r@ =~= normalize_quotes(v@));
    }
    r
}

/// Cleans a raw response, as `spec_clean_response` describes.
pub fn clean_response(v: &Vec<char>) -> (r: Vec<char>)
    ensures
        r@ == spec_clean_response(v@),
{
    let t1 = trim_chars(v);
    let t2 = trim_char_vec(&t1, '`');
    let mut pj: Vec<char> = Vec::new();
    pj.push('j');
    pj.push('s');
    pj.push('o');
    pj.push('n');
    proof {
        assert(pj@ =~= "json"@) by {
            reveal_strlit("json");
        }
    }
    let t3 = strip_prefix_vec(&t2, &pj);
    let mut pj2: Vec<char> = Vec::new();
    pj2.push('J');
    pj2.push('S');
    pj2.push('O');
    pj2.push('N');
    proof {
        assert(pj2@ =~= "JSON"@) by {
            reveal_strlit("JSON");
        }
    }
    let t4 = strip_prefix_vec(&t3, &pj2);
    let t5 = normalize_quotes_vec(&t4);
    trim_chars(&t5)
}

/// A decimal digit.
pub open spec fn is_digit(c: char) -> bool {
    48 <= c as u32 <= 57
}

/// A digit's numeric value.
pub open spec fn digit_val(c: char) -> int {
    c as u32 - 48
}

/// The digit class, for scanning.
pub open spec fn digit_pred() -> spec_fn(char) -> bool {
    |c: char| is_digit(c)
}

/// The whitespace the parser skips between tokens.
pub open spec fn json_ws(c: char) -> bool {
    c == ' ' || c == '\t' || c == '\n' || c == '\r'
}

/// The parser's whitespace class, for scanning.
pub open spec fn json_ws_pred() -> spec_fn(char) -> bool {
    |c: char| json_ws(c)
}

/// First non-whitespace position at or after `i`.
pub open spec fn skip_ws(s: Seq<char>, i: int) -> int {
    next_nomatch(s, i, json_ws_pred())
}

/// The character class that ends a quoted string: a closing quote or an
/// escape, which this parser does not accept.
pub open spec fn quote_end_pred() -> spec_fn(char) -> bool {
    |c: char| c == '"' || c == '\\'
}

/// Value of the digit run `s[i..j)` read as a decimal number.
pub open spec fn digits_value(s: Seq<char>, i: int, j: int) -> int
    decreases j - i when i <= j
{
    if j <= i {
        0
    } else {
        digits_value(s, i, j - 1) * 10 + digit_val(s[j - 1])
    }
}

/// Thousandths contributed by the fraction digits `s[a..b)`: only the
/// first three count.
pub open spec fn frac_milli(s: Seq<char>, a: int, b: int) -> int {
    (if a < b {
        digit_val(s[a]) * 100
    } else {
        0
    }) + (if a + 1 < b {
        digit_val(s[a + 1]) * 10
    } else {
        0
    }) + (if a + 2 < b {
        digit_val(s[a + 2])
    } else {
        0
    })
}

/// Parses a decimal number at `i` into thousandths: an optional minus, at
/// most fifteen integer digits, optionally a point and fraction digits, of
/// which the first three are kept.
pub open spec fn spec_parse_number(s: Seq<char>, i: int) -> Option<(int, int)> {
    let neg = i < s.len() && s[i] == '-';
    let i0 = if neg {
        i + 1
    } else {
        i
    };
    if i0 > s.len() {
        None
    } else {
        let de = next_nomatch(s, i0, digit_pred());
        if de == i0 || de - i0 > 15 {
            None
        } else {
            let iv = digits_value(s, i0, de);
            if de < s.len() && s[de] == '.' {
                let fe = next_nomatch(s, de + 1, digit_pred());
                if fe == de + 1 {
                    None
                } else {
                    let m = iv * 1000 + frac_milli(s, de + 1, fe);
                    Some(
                        (
                            if neg {
                                -m
                            } else {
                                m
                            },
                            fe,
                        ),
                    )
                }
            } else {
                let m = iv * 1000;
                Some(
                    (
                        if neg {
                            -m
                        } else {
                            m
                        },
                        de,
                    ),
                )
            }
        }
    }
}

/// Parses a quoted string at `i`; escapes are not accepted.
pub open spec fn spec_parse_string(s: Seq<char>, i: int) -> Option<(Seq<char>, int)> {
    if 0 <= i && i < s.len() && s[i] == '"' {
        let e = next_match(s, i + 1, quote_end_pred());
        if e < s.len() && s[e] == '"' {
            Some((s.subrange(i + 1, e), e + 1))
        } else {
            None
        }
    } else {
        None
    }
}

/// After the text field: a comma, the relevance key and value, and the
/// closing brace.
pub open spec fn spec_obj_rest_rel(s: Seq<char>, i: int, text: Seq<char>) -> Option<
    ((Seq<char>, int), int),
> {
    let q = skip_ws(s, i);
    if q < s.len() && s[q] == ',' {
        match spec_parse_string(s, skip_ws(s, q + 1)) {
            Some((k, p)) => if k == "relevance"@ {
                let c = skip_ws(s, p);
                if c < s.len() && s[c] == ':' {
                    match spec_parse_number(s, skip_ws(s, c + 1)) {
                        Some((rel, p2)) => {
                            let e = skip_ws(s, p2);
                            if e < s.len() && s[e] == '}' {
                                Some(((text, rel), e + 1))
                            } else {
                                None
                            }
                        },
                        None => None,
                    }
                } else {
                    None
                }
            } else {
                None
            },
            None => None,
        }
    } else {
        None
    }
}

/// After the relevance field: a comma, the text key and value, and the
/// closing brace.
pub open spec fn spec_obj_rest_text(s: Seq<char>, i: int, rel: int) -> Option<
    ((Seq<char>, int), int),
> {
    let q = skip_ws(s, i);
    if q < s.len() && s[q] == ',' {
        match spec_parse_string(s, skip_ws(s, q + 1)) {
            Some((k, p)) => if k == "text"@ {
                let c = skip_ws(s, p);
                if c < s.len() && s[c] == ':' {
                    match spec_parse_string(s, skip_ws(s, c + 1)) {
                        Some((text, p2)) => {
                            let e = skip_ws(s, p2);
                            if e < s.len() && s[e] == '}' {
                                Some(((text, rel), e + 1))
                            } else {
                                None
                            }
                        },
                        None => None,
                    }
                } else {
                    None
                }
            } else {
                None
            },
            None => None,
        }
    } else {
        None
    }
}

/// Parses one insight object at `i`: exactly a text field and a relevance
/// field, in either order.
pub open spec fn spec_parse_object(s: Seq<char>, i: int) -> Option<((Seq<char>, int), int)> {
    if 0 <= i && i < s.len() && s[i] == '{' {
        match spec_parse_string(s, skip_ws(s, i + 1)) {
            Some((k, p)) => {
                let c = skip_ws(s, p);
                if c < s.len() && s[c] == ':' {
                    let v = skip_ws(s, c + 1);
                    if k == "text"@ {
                        match spec_parse_string(s, v) {
                            Some((text, p2)) => spec_obj_rest_rel(s, p2, text),
                            None => None,
                        }
                    } else if k == "relevance"@ {
                        match spec_parse_number(s, v) {
                            Some((rel, p2)) => spec_obj_rest_text(s, p2, rel),
                            None => None,
                        }
                    } else {
                        None
                    }
                } else {
                    None
                }
            },
            None => None,
        }
    } else {
        None
    }
}

/// A successful string parse moves the position forward, within bounds.
pub proof fn lemma_parse_string_advances(s: Seq<char>, i: int)
    requires
        spec_parse_string(s, i) is Some,
    ensures
        i < spec_parse_string(s, i)->Some_0.1 <= s.len(),
{
    crate::text::lemma_next_match(s, i + 1, quote_end_pred());
}

/// A successful number parse moves the position forward, within bounds.
pub proof fn lemma_parse_number_advances(s: Seq<char>, i: int)
    requires
        0 <= i <= s.len(),
        spec_parse_number(s, i) is Some,
    ensures
        i < spec_parse_number(s, i)->Some_0.1 <= s.len(),
{
    let neg = i < s.len() && s[i] == '-';
    let i0 = if neg {
        i + 1
    } else {
        i
    };
    crate::text::lemma_next_nomatch(s, i0, digit_pred());
    let de = next_nomatch(s, i0, digit_pred());
    if de < s.len() && s[de] == '.' {
        crate::text::lemma_next_nomatch(s, de + 1, digit_pred());
    }
}

/// Positions only move forward through whitespace, within bounds.
pub proof fn lemma_skip_ws_bounds(s: Seq<char>, i: int)
    requires
        0 <= i <= s.len(),
    ensures
        i <= skip_ws(s, i) <= s.len(),
{
    crate::text::lemma_next_nomatch(s, i, json_ws_pred());
}

/// A successful object parse moves the position forward, within bounds.
pub proof fn lemma_parse_object_advances(s: Seq<char>, i: int)
    requires
        0 <= i <= s.len(),
        spec_parse_object(s, i) is Some,
    ensures
        i < spec_parse_object(s, i)->Some_0.1 <= s.len(),
{
    lemma_skip_ws_bounds(s, i + 1);
    let (k, p) = spec_parse_string(s, skip_ws(s, i + 1))->Some_0;
    lemma_parse_string_advances(s, skip_ws(s, i + 1));
    let c = skip_ws(s, p);
    lemma_skip_ws_bounds(s, p);
    let v = skip_ws(s, c + 1);
    lemma_skip_ws_bounds(s, c + 1);
    if k == "text"@ {
        let (text, p2) = spec_parse_string(s, v)->Some_0;
        lemma_parse_string_advances(s, v);
        lemma_obj_rest_rel_advances(s, p2, text);
    } else {
        let (rel, p2) = spec_parse_number(s, v)->Some_0;
        lemma_parse_number_advances(s, v);
        lemma_obj_rest_text_advances(s, p2, rel);
    }
}

proof fn lemma_obj_rest_rel_advances(s: Seq<char>, i: int, text: Seq<char>)
    requires
        0 <= i <= s.len(),
        spec_obj_rest_rel(s, i, text) is Some,
    ensures
        i < spec_obj_rest_rel(s, i, text)->Some_0.1 <= s.len(),
{
    lemma_skip_ws_bounds(s, i);
    let q = skip_ws(s, i);
    lemma_skip_ws_bounds(s, q + 1);
    let (k, p) = spec_parse_string(s, skip_ws(s, q + 1))->Some_0;
    lemma_parse_string_advances(s, skip_ws(s, q + 1));
    let c = skip_ws(s, p);
    lemma_skip_ws_bounds(s, p);
    lemma_skip_ws_bounds(s, c + 1);
    let (rel, p2) = spec_parse_number(s, skip_ws(s, c + 1))->Some_0;
    lemma_parse_number_advances(s, skip_ws(s, c + 1));
    lemma_skip_ws_bounds(s, p2);
}

proof fn lemma_obj_rest_text_advances(s: Seq<char>, i: int, rel: int)
    requires
        0 <= i <= s.len(),
        spec_obj_rest_text(s, i, rel) is Some,
    ensures
        i < spec_obj_rest_text(s, i, rel)->Some_0.1 <= s.len(),
{
    lemma_skip_ws_bounds(s, i);
    let q = skip_ws(s, i);
    lemma_skip_ws_bounds(s, q + 1);
    let (k, p) = spec_parse_string(s, skip_ws(s, q + 1))->Some_0;
    lemma_parse_string_advances(s, skip_ws(s, q + 1));
    let c = skip_ws(s, p);
    lemma_skip_ws_bounds(s, p);
    lemma_skip_ws_bounds(s, c + 1);
    let (text, p2) = spec_parse_string(s, skip_ws(s, c + 1))->Some_0;
    lemma_parse_string_advances(s, skip_ws(s, c + 1));
    lemma_skip_ws_bounds(s, p2);
}

/// Parses the objects of a non-empty array from `i` up to and including
/// the closing bracket.
pub open spec fn spec_parse_items(s: Seq<char>, i: int) -> Option<(Seq<(Seq<char>, int)>, int)>
    decreases s.len() - i when 0 <= i <= s.len() via spec_parse_items_dec
{
    match spec_parse_object(s, i) {
        Some((item, p)) => {
            let q = skip_ws(s, p);
            if q < s.len() && s[q] == ',' {
                match spec_parse_items(s, skip_ws(s, q + 1)) {
                    Some((rest, e)) => Some((seq![item] + rest, e)),
                    None => None,
                }
            } else if q < s.len() && s[q] == ']' {
                Some((seq![item], q + 1))
            } else {
                None
            }
        },
        None => None,
    }
}

#[via_fn]
proof fn spec_parse_items_dec(s: Seq<char>, i: int) {
    if spec_parse_object(s, i) is Some {
        lemma_parse_object_advances(s, i);
        let p = spec_parse_object(s, i)->Some_0.1;
        lemma_skip_ws_bounds(s, p);
        let q = skip_ws(s, p);
        if q < s.len() {
            lemma_skip_ws_bounds(s, q + 1);
        }
    }
}

/// Parses a whole response as an array of insight objects; everything
/// after it may only be whitespace.
pub open spec fn spec_parse_insights(s: Seq<char>) -> Option<Seq<(Seq<char>, int)>> {
    let b = skip_ws(s, 0);
    if b < s.len() && s[b] == '[' {
        let c = skip_ws(s, b + 1);
        if c < s.len() && s[c] == ']' {
            if skip_ws(s, c + 1) == s.len() {
                Some(Seq::empty())
            } else {
                None
            }
        } else {
            match spec_parse_items(s, c) {
                Some((items, p)) => if skip_ws(s, p) == s.len() {
                    Some(items)
                } else {
                    None
                },
                None => None,
            }
        }
    } else {
        None
    }
}

/// The line separator used by the fallback stage.
pub open spec fn newline_pred() -> spec_fn(char) -> bool {
    |c: char| c == '\n'
}

/// The insights the line fallback yields from the raw response's lines:
/// each non-blank line, trimmed, with the fixed fallback relevance.
pub open spec fn fallback_items(ls: Seq<Seq<char>>) -> Seq<(Seq<char>, int)>
    decreases ls.len(),
{
    if ls.len() == 0 {
        Seq::empty()
    } else {
        let rest = fallback_items(ls.drop_last());
        if trim_seq(ls.last()).len() > 0 {
            rest.push((trim_seq(ls.last()), FALLBACK_RELEVANCE_MILLI as int))
        } else {
            rest
        }
    }
}

/// The second stage's rewrite: wrap a bare object, or anything that does
/// not start with a bracket, in array brackets.
pub open spec fn wrap_fixed(cleaned: Seq<char>) -> Seq<char> {
    if cleaned.len() > 0 && cleaned.first() == '{' && cleaned.last() == '}' {
        seq!['['] + cleaned + seq![']']
    } else if !(cleaned.len() > 0 && cleaned.first() == '[') {
        seq!['['] + cleaned + seq![']']
    } else {
        cleaned
    }
}

/// The whole three-stage recovery chain: parse the cleaned response as-is;
/// re-parse with brackets fixed up; finally fall back to one insight per
/// non-blank raw line.  The chain always yields a list.
pub open spec fn spec_parse_chain(raw: Seq<char>) -> Seq<(Seq<char>, int)> {
    let cleaned = spec_clean_response(raw);
    match spec_parse_insights(cleaned) {
        Some(items) => items,
        None => match spec_parse_insights(wrap_fixed(cleaned)) {
            Some(items) => items,
            None => fallback_items(split_from(raw, 0, newline_pred())),
        },
    }
}

/// The texts and relevances of a list of insights.
pub open spec fn insight_pairs(s: Seq<Insight>) -> Seq<(Seq<char>, int)> {
    s.map_values(|i: Insight| (i.text@, i.relevance_milli as int))
}

/// First position at or after `i` that is not parser whitespace.
fn skip_ws_at(v: &Vec<char>, from: usize) -> (r: usize)
    requires
        from <= v@.len(),
    ensures
        r as int == skip_ws(v@, from as int),
        from <= r <= v@.len(),
{
    proof {
        lemma_skip_ws_bounds(v@, from as int);
    }
    let n = v.len();
    let mut i: usize = from;
    while i < n && (v[i] == ' ' || v[i] == '\t' || v[i] == '\n' || v[i] == '\r')
        invariant
            from <= i <= n,
            n == v@.len(),
            skip_ws(v@, from as int) == skip_ws(v@, i as int),
        decreases n - i,
    {
        assert(json_ws_pred()(v@[i as int]));
        i = i + 1;
    }
    proof {
        if i < n {
            assert(!json_ws_pred()(v@[i as int]));
        }
        lemma_skip_ws_bounds(v@, from as int);
    }
    i
}

/// Whether a character is a decimal digit.
fn digit_char(c: char) -> (r: bool)
    ensures
        r == is_digit(c),
{
    let u = c as u32;
    48 <= u && u <= 57
}

/// First non-digit position at or after `from`.
fn scan_digits(v: &Vec<char>, from: usize) -> (r: usize)
    requires
        from <= v@.len(),
    ensures
        r as int == next_nomatch(v@, from as int, digit_pred()),
        from <= r <= v@.len(),
{
    proof {
        crate::text::lemma_next_nomatch(v@, from as int, digit_pred());
    }
    let n = v.len();
    let mut i: usize = from;
    while i < n && digit_char(v[i])
        invariant
            from <= i <= n,
            n == v@.len(),
            next_nomatch(v@, from as int, digit_pred()) == next_nomatch(v@, i as int, digit_pred()),
        decreases n - i,
    {
        assert(digit_pred()(v@[i as int]));
        i = i + 1;
    }
    proof {
        if i < n {
            assert(!digit_pred()(v@[i as int]));
        }
        crate::text::lemma_next_nomatch(v@, from as int, digit_pred());
    }
    i
}

/// Powers of ten.
pub open spec fn pow10(n: nat) -> int
    decreases n,
{
    if n == 0 {
        1
    } else {
        10 * pow10((n - 1) as nat)
    }
}

proof fn lemma_pow10_mono(a: nat, b: nat)
    requires
        a <= b,
    ensures
        pow10(a) <= pow10(b),
        pow10(a) >= 1,
    decreases b,
{
    if b == 0 {
    } else if a == b {
        lemma_pow10_mono((a - 1) as nat, (b - 1) as nat);
    } else {
        lemma_pow10_mono(a, (b - 1) as nat);
    }
}

/// Reads the value of the digit run `v[from..to)`.
fn read_digits(v: &Vec<char>, from: usize, to: usize) -> (r: i64)
    requires
        from <= to <= v@.len(),
        to - from <= 15,
        forall|k: int| from <= k < to ==> is_digit(#[trigger] v@[k]),
    ensures
        r as int == digits_value(v@, from as int, to as int),
        0 <= r,
{
    let mut val: i64 = 0;
    let mut k: usize = from;
    while k < to
        invariant
            from <= k <= to <= v@.len(),
            to - from <= 15,
            forall|j: int| from <= j < to ==> is_digit(#[trigger] v@[j]),
            val as int == digits_value(v@, from as int, k as int),
            0 <= val,
            val < pow10((k - from) as nat),
        decreases to - k,
    {
        proof {
            lemma_pow10_mono((k - from) as nat, 14);
            reveal_with_fuel(pow10, 16);
            assert(pow10(14) == 100_000_000_000_000);
        }
        let d = (v[k] as u32 - 48) as i64;
        val = val * 10 + d;
        k = k + 1;
    }
    val
}

/// Parses a decimal number, as `spec_parse_number` describes.
#[verifier::rlimit(50)]
fn parse_number_at(v: &Vec<char>, at: usize) -> (r: Option<(i64, usize)>)
    requires
        at <= v@.len(),
    ensures
        match r {
            Some((m, p)) => spec_parse_number(v@, at as int) == Some((m as int, p as int)) && p
                <= v@.len(),
            None => spec_parse_number(v@, at as int) is None,
        },
{
    let n = v.len();
    let neg = at < n && v[at] == '-';
    let i0 = if neg {
        at + 1
    } else {
        at
    };
    let de = scan_digits(v, i0);
    if de == i0 || de - i0 > 15 {
        return None;
    }
    proof {
        crate::text::lemma_next_nomatch(v@, i0 as int, digit_pred());
        assert(forall|k: int|
            i0 <= k < de ==> digit_pred()(#[trigger] v@[k]) && is_digit(v@[k]));
    }
    let iv = read_digits(v, i0, de);
    proof {
        reveal_with_fuel(pow10, 16);
        lemma_digits_value_bound(v@, i0 as int, de as int);
    }
    if de < n && v[de] == '.' {
        let fe = scan_digits(v, de + 1);
        if fe == de + 1 {
            return None;
        }
        proof {
            crate::text::lemma_next_nomatch(v@, de + 1 as int, digit_pred());
            assert(forall|k: int|
                de + 1 <= k < fe ==> digit_pred()(#[trigger] v@[k]) && is_digit(v@[k]));
        }
        let d1 = (v[de + 1] as u32 - 48) as i64;
        let d2 = if fe - de > 2 {
            (v[de + 2] as u32 - 48) as i64
        } else {
            0
        };
        let d3 = if fe - de > 3 {
            (v[de + 3] as u32 - 48) as i64
        } else {
            0
        };
        let frac = d1 * 100 + d2 * 10 + d3;
        let m = iv * 1000 + frac;
        let m = if neg {
            -m
        } else {
            m
        };
        Some((m, fe))
    } else {
        let m = iv * 1000;
        let m = if neg {
            -m
        } else {
            m
        };
        Some((m, de))
    }
}

/// The value of a run of at most 15 digits stays below `pow10(15)`.
proof fn lemma_digits_value_bound(s: Seq<char>, i: int, j: int)
    requires
        0 <= i <= j <= s.len(),
        j - i <= 15,
        forall|k: int| i <= k < j ==> is_digit(#[trigger] s[k]),
    ensures
        0 <= digits_value(s, i, j) < pow10((j - i) as nat),
    decreases j - i,
{
    if j <= i {
    } else {
        lemma_digits_value_bound(s, i, j - 1);
    }
}

/// Parses a number at the start of a text, as `spec_parse_number` at
/// position zero describes.
pub fn parse_number_prefix(v: &Vec<char>) -> (r: Option<(i64, usize)>)
    ensures
        match r {
            Some((m, p)) => spec_parse_number(v@, 0) == Some((m as int, p as int)) && p <= v@.len(),
            None => spec_parse_number(v@, 0) is None,
        },
{
    parse_number_at(v, 0)
}

/// Parses a quoted string, as `spec_parse_string` describes.
fn parse_string_at(v: &Vec<char>, at: usize) -> (r: Option<(Vec<char>, usize)>)
    requires
        at <= v@.len(),
    ensures
        match r {
            Some((t, p)) => spec_parse_string(v@, at as int) == Some((t@, p as int)) && p
                <= v@.len(),
            None => spec_parse_string(v@, at as int) is None,
        },
{
    let n = v.len();
    if !(at < n && v[at] == '"') {
        return None;
    }
    proof {
        crate::text::lemma_next_match(v@, at + 1, quote_end_pred());
    }
    let mut e: usize = at + 1;
    while e < n && !(v[e] == '"' || v[e] == '\\')
        invariant
            at + 1 <= e <= n,
            n == v@.len(),
            next_match(v@, at + 1, quote_end_pred()) == next_match(v@, e as int, quote_end_pred()),
        decreases n - e,
    {
        assert(!quote_end_pred()(v@[e as int]));
        e = e + 1;
    }
    proof {
        if e < n {
            assert(quote_end_pred()(v@[e as int]));
        }
    }
    if e < n && v[e] == '"' {
        let t = crate::text::copy_span(v, at + 1, e);
        Some((t, e + 1))
    } else {
        None
    }
}

/// Parses the tail of an object whose text field came first, as
/// `spec_obj_rest_rel` describes.
fn obj_rest_rel_at(v: &Vec<char>, at: usize, text: Vec<char>) -> (r: Option<((Vec<char>, i64), usize)>)
    requires
        at <= v@.len(),
    ensures
        match r {
            Some(((t, m), p)) => spec_obj_rest_rel(v@, at as int, text@) == Some(
                ((t@, m as int), p as int),
            ) && p <= v@.len(),
            None => spec_obj_rest_rel(v@, at as int, text@) is None,
        },
{
    let n = v.len();
    let q = skip_ws_at(v, at);
    if !(q < n && v[q] == ',') {
        return None;
    }
    let ks = skip_ws_at(v, q + 1);
    let (key, p) = match parse_string_at(v, ks) {
        Some(kp) => kp,
        None => {
            return None;
        },
    };
    let kv = string_from_chars(&key);
    if !crate::memory::substr_eq(kv.as_str(), "relevance") {
        return None;
    }
    let c = skip_ws_at(v, p);
    if !(c < n && v[c] == ':') {
        return None;
    }
    let vs = skip_ws_at(v, c + 1);
    let (rel, p2) = match parse_number_at(v, vs) {
        Some(rp) => rp,
        None => {
            return None;
        },
    };
    let e = skip_ws_at(v, p2);
    if e < n && v[e] == '}' {
        Some(((text, rel), e + 1))
    } else {
        None
    }
}

/// Parses the tail of an object whose relevance field came first, as
/// `spec_obj_rest_text` describes.
fn obj_rest_text_at(v: &Vec<char>, at: usize, rel: i64) -> (r: Option<((Vec<char>, i64), usize)>)
    requires
        at <= v@.len(),
    ensures
        match r {
            Some(((t, m), p)) => spec_obj_rest_text(v@, at as int, rel as int) == Some(
                ((t@, m as int), p as int),
            ) && p <= v@.len(),
            None => spec_obj_rest_text(v@, at as int, rel as int) is None,
        },
{
    let n = v.len();
    let q = skip_ws_at(v, at);
    if !(q < n && v[q] == ',') {
        return None;
    }
    let ks = skip_ws_at(v, q + 1);
    let (key, p) = match parse_string_at(v, ks) {
        Some(kp) => kp,
        None => {
            return None;
        },
    };
    let kv = string_from_chars(&key);
    if !crate::memory::substr_eq(kv.as_str(), "text") {
        return None;
    }
    let c = skip_ws_at(v, p);
    if !(c < n && v[c] == ':') {
        return None;
    }
    let vs = skip_ws_at(v, c + 1);
    let (text, p2) = match parse_string_at(v, vs) {
        Some(tp) => tp,
        None => {
            return None;
        },
    };
    let e = skip_ws_at(v, p2);
    if e < n && v[e] == '}' {
        Some(((text, rel), e + 1))
    } else {
        None
    }
}

/// Parses one insight object, as `spec_parse_object` describes.
fn parse_object_at(v: &Vec<char>, at: usize) -> (r: Option<((Vec<char>, i64), usize)>)
    requires
        at <= v@.len(),
    ensures
        match r {
            Some(((t, m), p)) => spec_parse_object(v@, at as int) == Some(
                ((t@, m as int), p as int),
            ) && at < p <= v@.len(),
            None => spec_parse_object(v@, at as int) is None,
        },
{
    let n = v.len();
    if !(at < n && v[at] == '{') {
        return None;
    }
    let ks = skip_ws_at(v, at + 1);
    let (key, p) = match parse_string_at(v, ks) {
        Some(kp) => kp,
        None => {
            return None;
        },
    };
    let kv = string_from_chars(&key);
    let c = skip_ws_at(v, p);
    if !(c < n && v[c] == ':') {
        return None;
    }
    let vs = skip_ws_at(v, c + 1);
    let r = if crate::memory::substr_eq(kv.as_str(), "text") {
        match parse_string_at(v, vs) {
            Some((text, p2)) => obj_rest_rel_at(v, p2, text),
            None => None,
        }
    } else if crate::memory::substr_eq(kv.as_str(), "relevance") {
        match parse_number_at(v, vs) {
            Some((rel, p2)) => obj_rest_text_at(v, p2, rel),
            None => None,
        }
    } else {
        None
    };
    proof {
        if spec_parse_object(v@, at as int) is Some {
            lemma_parse_object_advances(v@, at as int);
        }
    }
    r
}

/// Parses the items of a non-empty array up to and including the closing
/// bracket, as `spec_parse_items` describes.
fn parse_items_at(v: &Vec<char>, at: usize) -> (r: Option<(Vec<Insight>, usize)>)
    requires
        at <= v@.len(),
    ensures
        match r {
            Some((list, p)) => spec_parse_items(v@, at as int) == Some(
                (insight_pairs(list@), p as int),
            ) && p <= v@.len() && forall|k: int|
                0 <= k < list@.len() ==> (#[trigger] list@[k])@.embedding is None
                    && list@[k]@.metadata is None,
            None => spec_parse_items(v@, at as int) is None,
        },
    decreases v@.len() - at,
{
    let n = v.len();
    let ((text, rel), p) = match parse_object_at(v, at) {
        Some(op) => op,
        None => {
            return None;
        },
    };
    let q = skip_ws_at(v, p);
    let item = Insight {
        text: string_from_chars(&text),
        relevance_milli: rel,
        embedding: None,
        metadata: None,
    };
    if q < n && v[q] == ',' {
        let rs = skip_ws_at(v, q + 1);
        match parse_items_at(v, rs) {
            Some((mut rest, e)) => {
                let ghost restv = rest@;
                rest.insert(0, item);
                proof {
                    assert(insight_pairs(rest@) =~= seq![(text@, rel as int)] + insight_pairs(
                        restv,
                    ));
                    assert forall|k: int| 0 <= k < rest@.len() implies (#[trigger] rest@[k])@.embedding
                        is None && rest@[k]@.metadata is None by {
                        if k > 0 {
                            assert(rest@[k] == restv[k - 1]);
                        }
                    }
                }
                Some((rest, e))
            },
            None => None,
        }
    } else if q < n && v[q] == ']' {
        let mut list: Vec<Insight> = Vec::new();
        list.push(item);
        proof {
            assert(insight_pairs(list@) =~= seq![(text@, rel as int)]);
        }
        Some((list, q + 1))
    } else {
        None
    }
}

/// Parses a whole cleaned response, as `spec_parse_insights` describes.
fn parse_insights_vec(v: &Vec<char>) -> (r: Option<Vec<Insight>>)
    ensures
        match r {
            Some(list) => spec_parse_insights(v@) == Some(insight_pairs(list@)) && forall|k: int|
                0 <= k < list@.len() ==> (#[trigger] list@[k])@.embedding is None
                    && list@[k]@.metadata is None,
            None => spec_parse_insights(v@) is None,
        },
{
    let n = v.len();
    let b = skip_ws_at(v, 0);
    if !(b < n && v[b] == '[') {
        return None;
    }
    let c = skip_ws_at(v, b + 1);
    if c < n && v[c] == ']' {
        if skip_ws_at(v, c + 1) == n {
            let list: Vec<Insight> = Vec::new();
            proof {
                assert(insight_pairs(list@) =~= Seq::<(Seq<char>, int)>::empty());
            }
            return Some(list);
        } else {
            return None;
        }
    }
    match parse_items_at(v, c) {
        Some((list, p)) => {
            if skip_ws_at(v, p) == n {
                Some(list)
            } else {
                None
            }
        },
        None => None,
    }
}

/// Wraps a text in array brackets.
fn wrap_brackets(v: &Vec<char>) -> (r: Vec<char>)
    ensures
        r@ == seq!['['] + v@ + seq![']'],
{
    let mut r: Vec<char> = Vec::new();
    r.push('[');
    let mut i: usize = 0;
    while i < v.len()
        invariant
            i <= v@.len(),
            r@ == seq!['['] + v@.take(i as int),
        decreases v@.len() - i,
    {
        r.push(v[i]);
        assert(v@.take((i + 1) as int) =~= v@.take(i as int).push(v@[i as int]));
        assert((seq!['['] + v@.take(i as int)).push(v@[i as int]) =~= seq!['['] + v@.take(
            (i + 1) as int,
        ));
        i = i + 1;
    }
    proof {
        assert(v@.take(v@.len() as int) =~= v@);
    }
    r.push(']');
    proof {
        assert(r@ =~= seq!['['] + v@ + seq![']']);
    }
    r
}

/// Splits the raw response into lines and keeps each non-blank one,
/// trimmed, as an insight with the fallback relevance.
fn line_fallback(raw: &Vec<char>) -> (r: Vec<Insight>)
    ensures
        insight_pairs(r@) == fallback_items(split_from(raw@, 0, newline_pred())),
        forall|k: int|
            0 <= k < r@.len() ==> (#[trigger] r@[k])@.embedding is None && r@[k]@.metadata is None,
{
    let n = raw.len();
    let mut segs: Vec<Vec<char>> = Vec::new();
    let mut i: usize = 0;
    proof {
        crate::text::lemma_next_nomatch(raw@, 0, newline_pred());
    }
    while i < n && raw[i] == '\n'
        invariant
            i <= n,
            n == raw@.len(),
            next_nomatch(raw@, 0, newline_pred()) == next_nomatch(raw@, i as int, newline_pred()),
        decreases n - i,
    {
        assert(newline_pred()(raw@[i as int]));
        i = i + 1;
    }
    proof {
        if i < n {
            assert(!newline_pred()(raw@[i as int]));
        }
        assert(next_nomatch(raw@, i as int, newline_pred()) == i as int);
        crate::chunker::lemma_split_from_align(raw@, 0, newline_pred());
    }
    while i < n
        invariant
            i <= n,
            n == raw@.len(),
            next_nomatch(raw@, i as int, newline_pred()) == i as int || i == n,
            split_from(raw@, 0, newline_pred()) == crate::chunker::views(segs@) + split_from(
                raw@,
                i as int,
                newline_pred(),
            ),
        decreases n - i,
    {
        proof {
            if next_nomatch(raw@, i as int, newline_pred()) != i as int {
                assert(false);
            }
        }
        let mut e: usize = i;
        while e < n && raw[e] != '\n'
            invariant
                i <= e <= n,
                n == raw@.len(),
                next_match(raw@, i as int, newline_pred()) == next_match(
                    raw@,
                    e as int,
                    newline_pred(),
                ),
            decreases n - e,
        {
            assert(!newline_pred()(raw@[e as int]));
            e = e + 1;
        }
        proof {
            if e < n {
                assert(newline_pred()(raw@[e as int]));
            }
            assert(next_match(raw@, i as int, newline_pred()) == e as int);
        }
        let seg = crate::text::copy_span(raw, i, e);
        let ghost old_segs = segs@;
        let ghost old_i = i as int;
        segs.push(seg);
        proof {
            assert(split_from(raw@, old_i, newline_pred()) == seq![
                raw@.subrange(old_i, e as int),
            ] + split_from(raw@, e as int, newline_pred()));
            assert(crate::chunker::views(segs@) =~= crate::chunker::views(old_segs).push(seg@));
            assert(crate::chunker::views(old_segs).push(seg@) + split_from(
                raw@,
                e as int,
                newline_pred(),
            ) =~= crate::chunker::views(old_segs) + split_from(raw@, old_i, newline_pred()));
        }
        let mut j: usize = e;
        while j < n && raw[j] == '\n'
            invariant
                e <= j <= n,
                n == raw@.len(),
                next_nomatch(raw@, e as int, newline_pred()) == next_nomatch(
                    raw@,
                    j as int,
                    newline_pred(),
                ),
            decreases n - j,
        {
            assert(newline_pred()(raw@[j as int]));
            j = j + 1;
        }
        proof {
            if j < n {
                assert(!newline_pred()(raw@[j as int]));
            }
            assert(next_nomatch(raw@, j as int, newline_pred()) == j as int);
            crate::text::lemma_next_nomatch(raw@, e as int, newline_pred());
            assert(split_from(raw@, e as int, newline_pred()) == split_from(
                raw@,
                j as int,
                newline_pred(),
            )) by {
                assert(next_nomatch(raw@, e as int, newline_pred()) == j as int);
            }
        }
        i = j;
    }
    proof {
        assert(split_from(raw@, i as int, newline_pred()) =~= Seq::<Seq<char>>::empty());
        assert(crate::chunker::views(segs@) + Seq::<Seq<char>>::empty() =~= crate::chunker::views(
            segs@,
        ));
    }
    let mut out: Vec<Insight> = Vec::new();
    let mut k: usize = 0;
    let ghost segviews = crate::chunker::views(segs@);
    proof {
        assert(fallback_items(segviews.take(0)) =~= Seq::<(Seq<char>, int)>::empty());
        assert(insight_pairs(out@) =~= Seq::<(Seq<char>, int)>::empty());
    }
    while k < segs.len()
        invariant
            k <= segs@.len(),
            segviews == crate::chunker::views(segs@),
            insight_pairs(out@) == fallback_items(segviews.take(k as int)),
            forall|j: int|
                0 <= j < out@.len() ==> (#[trigger] out@[j])@.embedding is None
                    && out@[j]@.metadata is None,
        decreases segs@.len() - k,
    {
        let ghost pre = segviews.take(k as int);
        let ghost cur = segviews.take(k + 1);
        proof {
            assert(cur.drop_last() =~= pre);
            assert(cur.last() == segs@[k as int]@);
        }
        let trimmed = trim_chars(&segs[k]);
        if trimmed.len() > 0 {
            let ghost tv = trimmed@;
            let ghost old_out = out@;
            out.push(
                Insight {
                    text: string_from_chars(&trimmed),
                    relevance_milli: FALLBACK_RELEVANCE_MILLI,
                    embedding: None,
                    metadata: None,
                },
            );
            proof {
                assert(insight_pairs(out@) =~= insight_pairs(old_out).push(
                    (tv, FALLBACK_RELEVANCE_MILLI as int),
                ));
            }
        }
        k = k + 1;
    }
    proof {
        assert(segviews.take(segs@.len() as int) =~= segviews);
    }
    out
}

/// Recovers insights from a completion backend's raw response through the
/// three-stage chain, as `spec_parse_chain` describes: it never fails, and
/// every recovered insight is still without embedding and metadata.
pub fn parse_insights_response(response: &str) -> (r: Vec<Insight>)
    ensures
        insight_pairs(r@) == spec_parse_chain(response@),
        forall|k: int|
            0 <= k < r@.len() ==> (#[trigger] r@[k])@.embedding is None && r@[k]@.metadata is None,
{
    let raw = chars_vec(response);
    let cleaned = clean_response(&raw);
    match parse_insights_vec(&cleaned) {
        Some(list) => list,
        None => {
            let wrap = if cleaned.len() > 0 && cleaned[0] == '{' && cleaned[cleaned.len() - 1]
                == '}' {
                wrap_brackets(&cleaned)
            } else if !(cleaned.len() > 0 && cleaned[0] == '[') {
                wrap_brackets(&cleaned)
            } else {
                crate::text::copy_span(&cleaned, 0, cleaned.len())
            };
            proof {
                assert(cleaned@.subrange(0, cleaned@.len() as int) =~= cleaned@);
                assert(wrap@ == wrap_fixed(cleaned@));
            }
            match parse_insights_vec(&wrap) {
                Some(list) => list,
                None => line_fallback(&raw),
            }
        },
    }
}

/// The views of a list of insights.
pub open spec fn iviews(v: Seq<Insight>) -> Seq<InsightView> {
    v.map_values(|i: Insight| i@)
}

/// The views of a list of processed chunks.
pub open spec fn pviews(v: Seq<ProcessedChunk>) -> Seq<ProcessedChunkView> {
    v.map_values(|p: ProcessedChunk| p@)
}

/// The prompt that asks the completion backend for a strict JSON array of
/// insights over a chunk's text.
pub open spec fn spec_insight_prompt(text: Seq<char>) -> Seq<char> {
    "Extract key insights from the following text and format them as a JSON array.\n\nEach insight must be an object with exactly these fields:\n\"text\": (string) The insight text\n\"relevance\": (number) Importance score between 0 and 1\n\nExample format:\n[\n  {\"text\": \"First key insight here\", \"relevance\": 0.95},\n  {\"text\": \"Second key insight here\", \"relevance\": 0.85}\n]\n\nText to analyze:\n"@
        + text
        + "\n\nRespond ONLY with the JSON array. Do not add any explanations or additional text."@
}

/// Builds the insight-extraction prompt, as `spec_insight_prompt`
/// describes.
pub fn insight_prompt(text: &str) -> (r: String)
    ensures
        r@ == spec_insight_prompt(text@),
{
    let mut r = String::new();
    r.append(
        "Extract key insights from the following text and format them as a JSON array.\n\nEach insight must be an object with exactly these fields:\n\"text\": (string) The insight text\n\"relevance\": (number) Importance score between 0 and 1\n\nExample format:\n[\n  {\"text\": \"First key insight here\", \"relevance\": 0.95},\n  {\"text\": \"Second key insight here\", \"relevance\": 0.85}\n]\n\nText to analyze:\n",
    );
    r.append(text);
    r.append(
        "\n\nRespond ONLY with the JSON array. Do not add any explanations or additional text.",
    );
    r
}

/// The prompt for a quick, free-form analysis of a text.
pub open spec fn spec_quick_prompt(text: Seq<char>) -> Seq<char> {
    "Please analyze this text and provide the key insights in a clear, concise way:\n\n"@ + text
}

/// Builds the quick-analysis prompt, as `spec_quick_prompt` describes.
pub fn quick_analyze_prompt(text: &str) -> (r: String)
    ensures
        r@ == spec_quick_prompt(text@),
{
    let mut r = String::new();
    r.append("Please analyze this text and provide the key insights in a clear, concise way:\n\n");
    r.append(text);
    r
}

/// The view an insight takes once provenance and the chunk's embedding are
/// attached.
pub open spec fn attached_view(
    pair: (Seq<char>, int),
    page: int,
    chunk: int,
    extra: Seq<(Seq<char>, Seq<char>)>,
    emb: Option<Seq<i64>>,
) -> InsightView {
    InsightView {
        text: pair.0,
        relevance_milli: pair.1,
        embedding: emb,
        metadata: Some(InsightMetaView { page: page, chunk: chunk, extra: extra }),
    }
}

/// The view of an optional embedding.
pub open spec fn opt_emb_view(e: Option<Vec<i64>>) -> Option<Seq<i64>> {
    match e {
        Some(v) => Some(v@),
        None => None,
    }
}

/// Copies an optional embedding, preserving its value.
pub fn clone_opt_embedding(e: &Option<Vec<i64>>) -> (r: Option<Vec<i64>>)
    ensures
        opt_emb_view(r) == match e {
            Some(v) => Some(v@),
            None => None::<Seq<i64>>,
        },
{
    match e {
        Some(v) => Some(clone_embedding(v)),
        None => None,
    }
}

/// Attaches provenance metadata and the chunk's embedding to every parsed
/// insight of one chunk.
pub fn attach_insights(
    parsed: Vec<Insight>,
    page: usize,
    chunk: usize,
    extra: &Vec<(String, String)>,
    emb: &Option<Vec<i64>>,
) -> (r: Vec<Insight>)
    ensures
        r@.len() == parsed@.len(),
        forall|k: int|
            0 <= k < r@.len() ==> (#[trigger] r@[k])@ == attached_view(
                insight_pairs(parsed@)[k],
                page as int,
                chunk as int,
                pairs_view(extra@),
                opt_emb_view(*emb),
            ),
{
    let mut r: Vec<Insight> = Vec::new();
    let mut i: usize = 0;
    let rem = parsed;
    while i < rem.len()
        invariant
            i <= rem@.len(),
            r@.len() == i,
            forall|k: int|
                0 <= k < i ==> (#[trigger] r@[k])@ == attached_view(
                    insight_pairs(rem@)[k],
                    page as int,
                    chunk as int,
                    pairs_view(extra@),
                    opt_emb_view(*emb),
                ),
        decreases rem@.len() - i,
    {
        let ins = Insight {
            text: rem[i].text.clone(),
            relevance_milli: rem[i].relevance_milli,
            embedding: clone_opt_embedding(emb),
            metadata: Some(
                InsightMeta { page: page, chunk: chunk, extra: clone_pairs(extra) },
            ),
        };
        r.push(ins);
        i = i + 1;
    }
    r
}

/// One chunk vector ready for the batch upsert into the document index.
pub struct ChunkPoint {
    pub embedding: Vec<i64>,
    pub text: String,
    pub page: usize,
    pub chunk: usize,
}

/// Mathematical value of a `ChunkPoint`.
pub ghost struct ChunkPointView {
    pub embedding: Seq<i64>,
    pub text: Seq<char>,
    pub page: int,
    pub chunk: int,
}

impl View for ChunkPoint {
    type V = ChunkPointView;

    open spec fn view(&self) -> ChunkPointView {
        ChunkPointView {
            embedding: self.embedding@,
            text: self.text@,
            page: self.page as int,
            chunk: self.chunk as int,
        }
    }
}

/// The points a batch upsert carries: one per processed chunk that has an
/// embedding, in order; a chunk without one yields no point.
pub open spec fn points_of(ps: Seq<ProcessedChunkView>) -> Seq<ChunkPointView>
    decreases ps.len(),
{
    if ps.len() == 0 {
        Seq::empty()
    } else {
        let rest = points_of(ps.drop_last());
        match ps.last().embedding {
            Some(e) => rest.push(
                ChunkPointView {
                    embedding: e,
                    text: ps.last().chunk.text,
                    page: ps.last().chunk.page_number,
                    chunk: ps.last().chunk.chunk_index,
                },
            ),
            None => rest,
        }
    }
}

/// All the insights of the processed chunks, in chunk order.
pub open spec fn cat_insights(ps: Seq<ProcessedChunkView>) -> Seq<InsightView>
    decreases ps.len(),
{
    if ps.len() == 0 {
        Seq::empty()
    } else {
        cat_insights(ps.drop_last()) + ps.last().insights
    }
}

/// How many chunks have an embedding.
pub open spec fn count_embedded(ps: Seq<ProcessedChunkView>) -> int
    decreases ps.len(),
{
    if ps.len() == 0 {
        0int
    } else {
        count_embedded(ps.drop_last()) + if ps.last().embedding is Some {
            1int
        } else {
            0int
        }
    }
}

/// A chunk that failed its embedding keeps its insights but yields no
/// upsert point: there are exactly as many points as embedded chunks, and
/// the insights of every chunk, embedded or not, are all returned.
pub proof fn lemma_degraded_chunks_kept(ps: Seq<ProcessedChunkView>)
    ensures
        points_of(ps).len() == count_embedded(ps),
        cat_insights(ps).len() == insight_count(ps),
    decreases ps.len(),
{
    if ps.len() > 0 {
        lemma_degraded_chunks_kept(ps.drop_last());
    }
}

/// The total number of insights across the processed chunks.
pub open spec fn insight_count(ps: Seq<ProcessedChunkView>) -> int
    decreases ps.len(),
{
    if ps.len() == 0 {
        0int
    } else {
        insight_count(ps.drop_last()) + ps.last().insights.len()
    }
}

/// Plans one whole document run from what the backends returned: for each
/// chunk, its parsed insights with provenance and the chunk embedding
/// attached; the flat list of every chunk's insights; and the upsert
/// points of exactly the chunks whose embedding succeeded.  A failed
/// embedding degrades that chunk to insights without a stored vector, it
/// never drops the chunk.
pub fn plan_document(
    chunks: Vec<DocumentChunk>,
    embeddings: Vec<Option<Vec<i64>>>,
    responses: Vec<String>,
    extra: Vec<(String, String)>,
) -> (r: (Vec<Insight>, Vec<ChunkPoint>, Vec<ProcessedChunk>))
    requires
        embeddings@.len() == chunks@.len(),
        responses@.len() == chunks@.len(),
    ensures
        pviews(r.2@).len() == chunks@.len(),
        forall|i: int|
            0 <= i < chunks@.len() ==> {
                let p = #[trigger] pviews(r.2@)[i];
                &&& p.chunk == chunks@[i]@
                &&& p.embedding == opt_emb_view(embeddings@[i])
                &&& p.insights.len() == spec_parse_chain(responses@[i]@).len()
                &&& forall|k: int|
                    0 <= k < p.insights.len() ==> #[trigger] p.insights[k] == attached_view(
                        spec_parse_chain(responses@[i]@)[k],
                        chunks@[i]@.page_number,
                        chunks@[i]@.chunk_index,
                        pairs_view(extra@),
                        opt_emb_view(embeddings@[i]),
                    )
            },
        iviews(r.0@) == cat_insights(pviews(r.2@)),
        r.1@.map_values(|p: ChunkPoint| p@) == points_of(pviews(r.2@)),
{
    let n = chunks.len();
    let mut all: Vec<Insight> = Vec::new();
    let mut points: Vec<ChunkPoint> = Vec::new();
    let mut processed: Vec<ProcessedChunk> = Vec::new();
    let mut i: usize = 0;
    proof {
        assert(pviews(processed@).take(0) =~= Seq::<ProcessedChunkView>::empty());
        assert(iviews(all@) =~= cat_insights(pviews(processed@)));
        assert(points@.map_values(|p: ChunkPoint| p@) =~= points_of(pviews(processed@)));
    }
    while i < n
        invariant
            i <= n,
            n == chunks@.len(),
            embeddings@.len() == n,
            responses@.len() == n,
            processed@.len() == i,
            forall|j: int|
                0 <= j < i ==> {
                    let p = #[trigger] pviews(processed@)[j];
                    &&& p.chunk == chunks@[j]@
                    &&& p.embedding == opt_emb_view(embeddings@[j])
                    &&& p.insights.len() == spec_parse_chain(responses@[j]@).len()
                    &&& forall|k: int|
                        0 <= k < p.insights.len() ==> #[trigger] p.insights[k] == attached_view(
                            spec_parse_chain(responses@[j]@)[k],
                            chunks@[j]@.page_number,
                            chunks@[j]@.chunk_index,
                            pairs_view(extra@),
                            opt_emb_view(embeddings@[j]),
                        )
                },
            iviews(all@) == cat_insights(pviews(processed@)),
            points@.map_values(|p: ChunkPoint| p@) == points_of(pviews(processed@)),
        decreases n - i,
    {
        let parsed = parse_insights_response(responses[i].as_str());
        let attached = attach_insights(
            parsed,
            chunks[i].page_number,
            chunks[i].chunk_index,
            &extra,
            &embeddings[i],
        );
        let mut copy = clone_insights(&attached);
        let ghost old_all = all@;
        all.append(&mut copy);
        let ghost old_points = points@;
        match &embeddings[i] {
            Some(e) => {
                points.push(
                    ChunkPoint {
                        embedding: clone_embedding(e),
                        text: chunks[i].text.clone(),
                        page: chunks[i].page_number,
                        chunk: chunks[i].chunk_index,
                    },
                );
            },
            None => {},
        }
        let pc = ProcessedChunk {
            chunk: chunks[i].clone(),
            embedding: clone_opt_embedding(&embeddings[i]),
            insights: attached,
        };
        let ghost pcv = pc@;
        let ghost old_processed = processed@;
        processed.push(pc);
        proof {
            assert(pviews(processed@) =~= pviews(old_processed).push(pcv));
            assert(pviews(processed@).drop_last() =~= pviews(old_processed));
            assert(cat_insights(pviews(processed@)) == cat_insights(pviews(old_processed))
                + pcv.insights);
            assert(iviews(all@) =~= iviews(old_all) + pcv.insights);
            assert(points_of(pviews(processed@)) == points_of(pviews(old_processed)) + (
            match pcv.embedding {
                Some(e) => seq![
                    ChunkPointView {
                        embedding: e,
                        text: pcv.chunk.text,
                        page: pcv.chunk.page_number,
                        chunk: pcv.chunk.chunk_index,
                    },
                ],
                None => Seq::<ChunkPointView>::empty(),
            }));
            assert(points@.map_values(|p: ChunkPoint| p@) =~= points_of(pviews(processed@)));
            assert forall|j: int| 0 <= j < i + 1 implies {
                let p = #[trigger] pviews(processed@)[j];
                &&& p.chunk == chunks@[j]@
                &&& p.embedding == opt_emb_view(embeddings@[j])
                &&& p.insights.len() == spec_parse_chain(responses@[j]@).len()
                &&& forall|k: int|
                    0 <= k < p.insights.len() ==> #[trigger] p.insights[k] == attached_view(
                        spec_parse_chain(responses@[j]@)[k],
                        chunks@[j]@.page_number,
                        chunks@[j]@.chunk_index,
                        pairs_view(extra@),
                        opt_emb_view(embeddings@[j]),
                    )
            } by {
                if j < i {
                    assert(pviews(processed@)[j] == pviews(old_processed)[j]);
                } else {
                    assert(pviews(processed@)[j] == pcv);
                }
            }
        }
        i = i + 1;
    }
    (all, points, processed)
}

/// One ranked hit against the document-chunk collection, already reduced
/// to plain values.
pub struct ChunkHit {
    pub text: String,
    pub page: usize,
    pub chunk: usize,
    pub score_milli: i64,
}

/// Mathematical value of a `ChunkHit`.
pub ghost struct ChunkHitView {
    pub text: Seq<char>,
    pub page: int,
    pub chunk: int,
    pub score_milli: int,
}

impl View for ChunkHit {
    type V = ChunkHitView;

    open spec fn view(&self) -> ChunkHitView {
        ChunkHitView {
            text: self.text@,
            page: self.page as int,
            chunk: self.chunk as int,
            score_milli: self.score_milli as int,
        }
    }
}

/// The views of a list of chunk hits.
pub open spec fn hviews(v: Seq<ChunkHit>) -> Seq<ChunkHitView> {
    v.map_values(|h: ChunkHit| h@)
}

/// The texts of the hits on one page, in input order.
pub open spec fn texts_for_page(hs: Seq<ChunkHitView>, p: int) -> Seq<Seq<char>>
    decreases hs.len(),
{
    if hs.len() == 0 {
        Seq::empty()
    } else {
        let rest = texts_for_page(hs.drop_last(), p);
        if hs.last().page == p {
            rest.push(hs.last().text)
        } else {
            rest
        }
    }
}

/// Groups document hits by page for summarization: one entry per page
/// that occurs, pages strictly ascending, each page's chunk texts joined
/// by single spaces in input order.
pub fn page_groups(hits: &Vec<ChunkHit>) -> (r: Vec<(usize, String)>)
    ensures
        forall|a: int, b: int| 0 <= a < b < r@.len() ==> (#[trigger] r@[a]).0 < (#[trigger] r@[b]).0,
        forall|k: int|
            0 <= k < r@.len() ==> (#[trigger] r@[k]).1@ == crate::chunker::join_words(
                texts_for_page(hviews(hits@), r@[k].0 as int),
            ) && texts_for_page(hviews(hits@), r@[k].0 as int).len() > 0,
        forall|j: int|
            0 <= j < hits@.len() ==> exists|k: int|
                0 <= k < r@.len() && (#[trigger] r@[k]).0 == (#[trigger] hits@[j]).page,
{
    let ghost hv = hviews(hits@);
    let mut out: Vec<(usize, String)> = Vec::new();
    let mut i: usize = 0;
    proof {
        assert(hv.take(0) =~= Seq::<ChunkHitView>::empty());
    }
    while i < hits.len()
        invariant
            i <= hits@.len(),
            hv == hviews(hits@),
            forall|a: int, b: int|
                0 <= a < b < out@.len() ==> (#[trigger] out@[a]).0 < (#[trigger] out@[b]).0,
            forall|k: int|
                0 <= k < out@.len() ==> (#[trigger] out@[k]).1@ == crate::chunker::join_words(
                    texts_for_page(hv.take(i as int), out@[k].0 as int),
                ) && texts_for_page(hv.take(i as int), out@[k].0 as int).len() > 0,
            forall|j: int|
                0 <= j < i ==> exists|k: int|
                    0 <= k < out@.len() && (#[trigger] out@[k]).0 == (#[trigger] hits@[j]).page,
        decreases hits@.len() - i,
    {
        let h = &hits[i];
        let ghost pre = hv.take(i as int);
        let ghost cur = hv.take(i + 1);
        proof {
            assert(cur.drop_last() =~= pre);
            assert(cur.last() == hits@[i as int]@);
        }
        let mut idx: usize = 0;
        while idx < out.len() && out[idx].0 < h.page
            invariant
                idx <= out@.len(),
                forall|a: int| 0 <= a < idx ==> (#[trigger] out@[a]).0 < h.page,
                forall|a: int, b: int|
                    0 <= a < b < out@.len() ==> (#[trigger] out@[a]).0 < (#[trigger] out@[b]).0,
            decreases out@.len() - idx,
        {
            idx = idx + 1;
        }
        let ghost old_out = out@;
        if idx < out.len() && out[idx].0 == h.page {
            let (p, mut s) = out.remove(idx);
            s.append(" ");
            s.append(h.text.as_str());
            out.insert(idx, (p, s));
            proof {
                reveal_strlit(" ");
                assert(" "@ =~= seq![' ']);
                crate::chunker::lemma_join_push(texts_for_page(pre, p as int), hits@[i as int]@.text);
                assert(out@ =~= old_out.update(idx as int, out@[idx as int]));
                assert forall|k: int|
                    0 <= k < out@.len() implies (#[trigger] out@[k]).1@
                    == crate::chunker::join_words(texts_for_page(cur, out@[k].0 as int))
                    && texts_for_page(cur, out@[k].0 as int).len() > 0 by {
                    if k == idx {
                        assert(texts_for_page(cur, p as int) =~= texts_for_page(pre, p as int).push(
                            hits@[i as int]@.text,
                        ));
                    } else {
                        assert(out@[k] == old_out[k]);
                        assert(out@[k].0 != h.page);
                        assert(texts_for_page(cur, out@[k].0 as int) =~= texts_for_page(
                            pre,
                            out@[k].0 as int,
                        ));
                    }
                }
                assert forall|j: int|
                    0 <= j < i + 1 implies exists|k: int|
                    0 <= k < out@.len() && (#[trigger] out@[k]).0 == (#[trigger] hits@[j]).page by {
                    if j < i {
                        let k0 = choose|k0: int|
                            0 <= k0 < old_out.len() && old_out[k0].0 == hits@[j].page;
                        assert(out@[k0].0 == hits@[j].page);
                    } else {
                        assert(out@[idx as int].0 == hits@[j].page);
                    }
                }
            }
        } else {
            out.insert(idx, (h.page, h.text.clone()));
            proof {
                assert(out@ =~= old_out.insert(idx as int, (h.page, out@[idx as int].1)));
                assert forall|a: int, b: int|
                    0 <= a < b < out@.len() implies (#[trigger] out@[a]).0 < (
                #[trigger] out@[b]).0 by {
                    if a < idx && b == idx {
                        assert(out@[a] == old_out[a]);
                    } else if a == idx && b > idx {
                        assert(out@[b] == old_out[b - 1]);
                        assert(old_out[idx as int].0 > h.page || idx as int == old_out.len());
                        assert(old_out[b - 1].0 >= old_out[idx as int].0 || b - 1 == idx);
                    } else if b < idx {
                        assert(out@[a] == old_out[a] && out@[b] == old_out[b]);
                    } else if a > idx {
                        assert(out@[a] == old_out[a - 1] && out@[b] == old_out[b - 1]);
                    } else {
                        assert(a < idx && b > idx);
                        assert(out@[a] == old_out[a] && out@[b] == old_out[b - 1]);
                    }
                }
                assert forall|k: int|
                    0 <= k < out@.len() implies (#[trigger] out@[k]).1@
                    == crate::chunker::join_words(texts_for_page(cur, out@[k].0 as int))
                    && texts_for_page(cur, out@[k].0 as int).len() > 0 by {
                    if k == idx {
                        assert(texts_for_page(pre, h@.page).len() == 0) by {
                            if texts_for_page(pre, h@.page).len() > 0 {
                                lemma_texts_present(pre, h@.page);
                                let j = choose|j: int|
                                    0 <= j < pre.len() && (#[trigger] pre[j]).page == h@.page;
                                assert(hits@[j]@.page == h@.page);
                                let k0 = choose|k0: int|
                                    0 <= k0 < old_out.len() && old_out[k0].0 == hits@[j].page;
                                assert(false) by {
                                    if k0 < idx {
                                        assert(old_out[k0].0 < h.page);
                                    } else {
                                        assert(old_out[k0].0 > h.page || k0 >= old_out.len());
                                    }
                                }
                            }
                        }
                        assert(texts_for_page(cur, h@.page) =~= seq![hits@[i as int]@.text]);
                        assert(crate::chunker::join_words(seq![hits@[i as int]@.text])
                            == hits@[i as int]@.text);
                    } else if k < idx {
                        assert(out@[k] == old_out[k]);
                        assert(out@[k].0 != h.page);
                        assert(texts_for_page(cur, out@[k].0 as int) =~= texts_for_page(
                            pre,
                            out@[k].0 as int,
                        ));
                    } else {
                        assert(out@[k] == old_out[k - 1]);
                        assert(out@[k].0 != h.page);
                        assert(texts_for_page(cur, out@[k].0 as int) =~= texts_for_page(
                            pre,
                            out@[k].0 as int,
                        ));
                    }
                }
                assert forall|j: int|
                    0 <= j < i + 1 implies exists|k: int|
                    0 <= k < out@.len() && (#[trigger] out@[k]).0 == (#[trigger] hits@[j]).page by {
                    if j < i {
                        let k0 = choose|k0: int|
                            0 <= k0 < old_out.len() && old_out[k0].0 == hits@[j].page;
                        if k0 < idx {
                            assert(out@[k0].0 == hits@[j].page);
                        } else {
                            assert(out@[k0 + 1].0 == hits@[j].page);
                        }
                    } else {
                        assert(out@[idx as int].0 == hits@[j].page);
                    }
                }
            }
        }
        i = i + 1;
    }
    proof {
        assert(hv.take(hits@.len() as int) =~= hv);
    }
    out
}

/// A page with texts has a hit on it.
proof fn lemma_texts_present(hs: Seq<ChunkHitView>, p: int)
    requires
        texts_for_page(hs, p).len() > 0,
    ensures
        exists|j: int| 0 <= j < hs.len() && (#[trigger] hs[j]).page == p,
    decreases hs.len(),
{
    if hs.len() > 0 {
        if hs.last().page == p {
            assert(hs[hs.len() - 1].page == p);
        } else {
            lemma_texts_present(hs.drop_last(), p);
            let j = choose|j: int| 0 <= j < hs.drop_last().len() && (#[trigger] hs.drop_last()[j]).page == p;
            assert(hs[j].page == p);
        }
    }
}

/// The per-page prompt of the document summary.
pub open spec fn spec_page_prompt(page: int, text: Seq<char>) -> Seq<char> {
    "Summarize this text from page "@ + crate::context::spec_dec(page) + " concisely:\n\n"@ + text
}

/// Builds the per-page summary prompt, as `spec_page_prompt` describes.
pub fn page_summary_prompt(page: usize, text: &str) -> (r: String)
    ensures
        r@ == spec_page_prompt(page as int, text@),
{
    let mut r = String::new();
    r.append("Summarize this text from page ");
    let d = crate::context::usize_dec(page);
    r.append(d.as_str());
    r.append(" concisely:\n\n");
    r.append(text);
    r
}

/// Appends one page's summary line to the document summary.
pub fn append_page_summary(out: &mut String, page: usize, summary: &str)
    ensures
        final(out)@ == old(out)@ + "\nPage "@ + crate::context::spec_dec(page as int) + ": "@
            + summary@ + "\n"@,
{
    out.append("\nPage ");
    let d = crate::context::usize_dec(page);
    out.append(d.as_str());
    out.append(": ");
    out.append(summary);
    out.append("\n");
}

/// A document search hit with the surrounding context the cache remembers
/// for its chunk.
pub struct SearchResult {
    pub text: String,
    pub context: String,
    pub score_milli: i64,
    pub page_number: usize,
    pub chunk_index: usize,
}

/// Consecutive index ranges of at most `group` items covering `0..n`: the
/// explicit shape of the bounded-concurrency fan-out.
pub fn batch_ranges(n: usize, group: usize) -> (r: Vec<(usize, usize)>)
    requires
        group >= 1,
    ensures
        forall|k: int|
            0 <= k < r@.len() ==> {
                let (a, b) = #[trigger] r@[k];
                a < b <= n && b - a <= group && (k > 0 ==> a == r@[k - 1].1) && (k == 0 ==> a == 0)
            },
        r@.len() > 0 ==> r@.last().1 == n,
        n > 0 ==> r@.len() > 0,
        n == 0 ==> r@.len() == 0,
{
    let mut r: Vec<(usize, usize)> = Vec::new();
    let mut a: usize = 0;
    while a < n
        invariant
            a <= n,
            group >= 1,
            forall|k: int|
                0 <= k < r@.len() ==> {
                    let (x, y) = #[trigger] r@[k];
                    x < y <= n && y - x <= group && (k > 0 ==> x == r@[k - 1].1) && (k == 0 ==> x
                        == 0)
                },
            r@.len() > 0 ==> r@.last().1 == a,
            r@.len() == 0 ==> a == 0,
        decreases n - a,
    {
        let b = if group < n - a {
            a + group
        } else {
            n
        };
        r.push((a, b));
        a = b;
    }
    r
}

/// Drives insight extraction per chunk: owns the bounded embedding cache
/// and all the pure steps of the pipeline — chunking, prompt building,
/// response parsing and the per-document plan.  The network calls
/// themselves stay with the caller.
pub struct InsightExtractor {
    /// The bounded least-recently-used chunk cache.
    pub cache: crate::cache::EmbeddingCache,
}

impl InsightExtractor {
    /// An extractor with a fresh, empty cache.
    pub fn new() -> (r: Self)
        ensures
            r.cache.wf(),
            r.cache.entries() == Map::<u64, ProcessedChunk>::empty(),
    {
        InsightExtractor { cache: crate::cache::EmbeddingCache::new() }
    }

    /// Splits a document into word windows; see `DocumentChunk::chunk`.
    pub fn create_chunks(&self, text: &str, chunk_size: usize) -> (r: Vec<DocumentChunk>)
        requires
            chunk_size >= 1,
        ensures
            r@.len() == crate::chunker::chunk_items(text@, chunk_size as int).len(),
            forall|k: int|
                0 <= k < r@.len() ==> {
                    &&& (#[trigger] r@[k]).page_number as int == crate::chunker::chunk_items(
                        text@,
                        chunk_size as int,
                    )[k].0
                    &&& r@[k].text@ == crate::chunker::chunk_items(text@, chunk_size as int)[k].1
                    &&& r@[k].chunk_index == k
                },
    {
        let r = DocumentChunk::chunk(text, chunk_size);
        proof {
            let items = crate::chunker::chunk_items(text@, chunk_size as int);
            assert forall|k: int| 0 <= k < r@.len() implies {
                &&& (#[trigger] r@[k]).page_number as int == items[k].0
                &&& r@[k].text@ == items[k].1
                &&& r@[k].chunk_index == k
            } by {
                assert(r@[k].page_number as int == items[k].0);
            }
        }
        r
    }

    /// Parses one completion response through the recovery chain; see
    /// `parse_insights_response`.
    pub fn parse_insights(&self, response: &str) -> (r: Vec<Insight>)
        ensures
            insight_pairs(r@) == spec_parse_chain(response@),
    {
        parse_insights_response(response)
    }

    /// Caches one processed chunk under its page/index key, evicting the
    /// least-recently-used entry at capacity.
    pub fn cache_chunk(&mut self, processed: ProcessedChunk)
        requires
            old(self).cache.wf(),
            processed.chunk.page_number < 0x1_0000_0000,
            processed.chunk.chunk_index < 0x1_0000_0000,
        ensures
            final(self).cache.wf(),
            final(self).cache.entries().dom().contains(
                (processed.chunk.page_number * 0x1_0000_0000 + processed.chunk.chunk_index) as u64,
            ),
            final(self).cache.entries()[(processed.chunk.page_number * 0x1_0000_0000
                + processed.chunk.chunk_index) as u64] == processed,
            final(self).cache.order().len() <= crate::cache::CACHE_CAPACITY,
    {
        let key = crate::cache::chunk_key(processed.chunk.page_number, processed.chunk.chunk_index);
        self.cache.insert(key, processed);
    }

    /// Returns the cached pipeline results of a chunk, or `None` on a
    /// miss; a hit refreshes the entry's recency.
    pub fn get_cached_chunk(&mut self, page: usize, chunk_index: usize) -> (r: Option<
        ProcessedChunk,
    >)
        requires
            old(self).cache.wf(),
            page < 0x1_0000_0000,
            chunk_index < 0x1_0000_0000,
        ensures
            final(self).cache.wf(),
            final(self).cache.entries() == old(self).cache.entries(),
            match r {
                Some(v) => old(self).cache.entries().dom().contains(
                    (page * 0x1_0000_0000 + chunk_index) as u64,
                ) && v@ == old(self).cache.entries()[(page * 0x1_0000_0000 + chunk_index) as u64]@,
                None => !old(self).cache.entries().dom().contains(
                    (page * 0x1_0000_0000 + chunk_index) as u64,
                ),
            },
    {
        let key = crate::cache::chunk_key(page, chunk_index);
        self.cache.lookup(key)
    }

    /// Dresses raw document hits as search results: each hit keeps its own
    /// fields, and its context is the cached chunk text when the chunk is
    /// still cached, else the hit's own text.
    pub fn search_results_with_context(&mut self, hits: Vec<ChunkHit>) -> (r: Vec<SearchResult>)
        requires
            old(self).cache.wf(),
            forall|k: int|
                0 <= k < hits@.len() ==> (#[trigger] hits@[k]).page < 0x1_0000_0000
                    && hits@[k].chunk < 0x1_0000_0000,
        ensures
            final(self).cache.wf(),
            final(self).cache.entries() == old(self).cache.entries(),
            r@.len() == hits@.len(),
            forall|k: int|
                0 <= k < r@.len() ==> {
                    let h = #[trigger] hits@[k];
                    let key = (h.page * 0x1_0000_0000 + h.chunk) as u64;
                    &&& r@[k].text@ == h.text@
                    &&& r@[k].score_milli == h.score_milli
                    &&& r@[k].page_number == h.page
                    &&& r@[k].chunk_index == h.chunk
                    &&& r@[k].context@ == if old(self).cache.entries().dom().contains(key) {
                        old(self).cache.entries()[key]@.chunk.text
                    } else {
                        h.text@
                    }
                },
    {
        let mut r: Vec<SearchResult> = Vec::new();
        let mut i: usize = 0;
        while i < hits.len()
            invariant
                i <= hits@.len(),
                self.cache.wf(),
                self.cache.entries() == old(self).cache.entries(),
                forall|k: int|
                    0 <= k < hits@.len() ==> (#[trigger] hits@[k]).page < 0x1_0000_0000
                        && hits@[k].chunk < 0x1_0000_0000,
                r@.len() == i,
                forall|k: int|
                    0 <= k < i ==> {
                        let h = #[trigger] hits@[k];
                        let key = (h.page * 0x1_0000_0000 + h.chunk) as u64;
                        &&& r@[k].text@ == h.text@
                        &&& r@[k].score_milli == h.score_milli
                        &&& r@[k].page_number == h.page
                        &&& r@[k].chunk_index == h.chunk
                        &&& r@[k].context@ == if old(self).cache.entries().dom().contains(key) {
                            old(self).cache.entries()[key]@.chunk.text
                        } else {
                            h.text@
                        }
                    },
            decreases hits@.len() - i,
        {
            let h = &hits[i];
            let context = match self.get_cached_chunk(h.page, h.chunk) {
                Some(pc) => pc.chunk.text,
                None => h.text.clone(),
            };
            r.push(
                SearchResult {
                    text: h.text.clone(),
                    context,
                    score_milli: h.score_milli,
                    page_number: h.page,
                    chunk_index: h.chunk,
                },
            );
            i = i + 1;
        }
        r
    }
}

} // verus!
