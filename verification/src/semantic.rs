//! Source-tagged semantic search over the shared vector index: indexing
//! payload preparation, decoding of ranked hits, client-side source
//! filtering, and rendering of ranked results.

use vstd::prelude::*;

use crate::context::{spec_dec, u64_dec, usize_dec};
use crate::memory::substr_eq;

verus! {

/// What the semantic-search collection stores alongside each vector.
pub struct SourcePayload {
    pub text: Option<String>,
    pub source: Option<String>,
    pub metadata: Option<Vec<(String, String)>>,
}

/// Mathematical value of a `SourcePayload`.
pub ghost struct SourcePayloadView {
    pub text: Option<Seq<char>>,
    pub source: Option<Seq<char>>,
    pub metadata: Option<Seq<(Seq<char>, Seq<char>)>>,
}

impl View for SourcePayload {
    type V = SourcePayloadView;

    open spec fn view(&self) -> SourcePayloadView {
        SourcePayloadView {
            text: match self.text {
                Some(ref s) => Some(s@),
                None => None,
            },
            source: match self.source {
                Some(ref s) => Some(s@),
                None => None,
            },
            metadata: match self.metadata {
                Some(ref m) => Some(crate::insights::pairs_view(m@)),
                None => None,
            },
        }
    }
}

/// One ranked semantic hit: id, score in thousandths, stored payload.
pub struct SourcePoint {
    pub id: String,
    pub score_milli: i64,
    pub payload: SourcePayload,
}

/// Mathematical value of a `SourcePoint`.
pub ghost struct SourcePointView {
    pub id: Seq<char>,
    pub score_milli: int,
    pub payload: SourcePayloadView,
}

impl View for SourcePoint {
    type V = SourcePointView;

    open spec fn view(&self) -> SourcePointView {
        SourcePointView {
            id: self.id@,
            score_milli: self.score_milli as int,
            payload: self.payload@,
        }
    }
}

/// One decoded search result.
pub struct SearchResult {
    pub text: String,
    pub score_milli: i64,
    pub source: String,
    pub metadata: Option<Vec<(String, String)>>,
}

/// Mathematical value of a `SearchResult`.
pub ghost struct SearchResultView {
    pub text: Seq<char>,
    pub score_milli: int,
    pub source: Seq<char>,
    pub metadata: Option<Seq<(Seq<char>, Seq<char>)>>,
}

impl View for SearchResult {
    type V = SearchResultView;

    open spec fn view(&self) -> SearchResultView {
        SearchResultView {
            text: self.text@,
            score_milli: self.score_milli as int,
            source: self.source@,
            metadata: match self.metadata {
                Some(ref m) => Some(crate::insights::pairs_view(m@)),
                None => None,
            },
        }
    }
}

/// The views of a list of search results.
pub open spec fn rviews(v: Seq<SearchResult>) -> Seq<SearchResultView> {
    v.map_values(|r: SearchResult| r@)
}

/// How one hit decodes: text and source must be present, else the hit is
/// dropped.
pub open spec fn spec_decode_hit(p: SourcePointView) -> Option<SearchResultView> {
    match (p.payload.text, p.payload.source) {
        (Some(t), Some(s)) => Some(
            SearchResultView {
                text: t,
                score_milli: p.score_milli,
                source: s,
                metadata: p.payload.metadata,
            },
        ),
        _ => None,
    }
}

/// The decoded results of a hit list, order kept, undecodable hits
/// dropped.
pub open spec fn decode_hits(ps: Seq<SourcePointView>) -> Seq<SearchResultView>
    decreases ps.len(),
{
    if ps.len() == 0 {
        Seq::empty()
    } else {
        let rest = decode_hits(ps.drop_last());
        match spec_decode_hit(ps.last()) {
            Some(r) => rest.push(r),
            None => rest,
        }
    }
}

/// The views of a list of source points.
pub open spec fn spviews(v: Seq<SourcePoint>) -> Seq<SourcePointView> {
    v.map_values(|p: SourcePoint| p@)
}

/// The payload a text is indexed under: text and source present, metadata
/// as given.
pub fn prepare_index_payload(
    text: &str,
    source: &str,
    metadata: Option<Vec<(String, String)>>,
) -> (r: SourcePayload)
    ensures
        r@.text == Some(text@),
        r@.source == Some(source@),
        r@.metadata == match metadata {
            Some(ref m) => Some(crate::insights::pairs_view(m@)),
            None => None::<Seq<(Seq<char>, Seq<char>)>>,
        },
{
    SourcePayload { text: Some(text.to_owned()), source: Some(source.to_owned()), metadata }
}

/// Decodes ranked hits in order, as `decode_hits` describes.
pub fn decode_search_hits(points: &Vec<SourcePoint>) -> (r: Vec<SearchResult>)
    ensures
        rviews(r@) == decode_hits(spviews(points@)),
{
    let mut r: Vec<SearchResult> = Vec::new();
    let mut i: usize = 0;
    proof {
        assert(spviews(points@).take(0) =~= Seq::<SourcePointView>::empty());
        assert(rviews(r@) =~= decode_hits(spviews(points@).take(0)));
    }
    while i < points.len()
        invariant
            i <= points@.len(),
            rviews(r@) == decode_hits(spviews(points@).take(i as int)),
        decreases points@.len() - i,
    {
        let ghost pre = spviews(points@).take(i as int);
        proof {
            assert(spviews(points@).take(i + 1).drop_last() =~= pre);
            assert(spviews(points@).take(i + 1).last() == points@[i as int]@);
        }
        let p = &points[i];
        match (&p.payload.text, &p.payload.source) {
            (Some(t), Some(s)) => {
                let ghost old_r = r@;
                let res = SearchResult {
                    text: t.clone(),
                    score_milli: p.score_milli,
                    source: s.clone(),
                    metadata: match &p.payload.metadata {
                        Some(m) => Some(crate::insights::clone_pairs(m)),
                        None => None,
                    },
                };
                let ghost resv = res@;
                r.push(res);
                proof {
                    assert(rviews(r@) =~= rviews(old_r).push(resv));
                    assert(resv == spec_decode_hit(points@[i as int]@)->Some_0);
                }
            },
            _ => {},
        }
        i = i + 1;
    }
    proof {
        assert(spviews(points@).take(points@.len() as int) =~= spviews(points@));
    }
    r
}

/// The results whose source matches.
pub open spec fn source_filter(rs: Seq<SearchResultView>, source: Seq<char>) -> Seq<
    SearchResultView,
>
    decreases rs.len(),
{
    if rs.len() == 0 {
        Seq::empty()
    } else {
        let rest = source_filter(rs.drop_last(), source);
        if rs.last().source == source {
            rest.push(rs.last())
        } else {
            rest
        }
    }
}

/// Keeps the decoded results of one source, in order, at most `limit` of
/// them: the client-side narrowing behind a source search.
pub fn filter_by_source(results: Vec<SearchResult>, source: &str, limit: usize) -> (r: Vec<
    SearchResult,
>)
    ensures
        ({
            let kept = source_filter(rviews(results@), source@);
            rviews(r@) == if limit <= kept.len() {
                kept.take(limit as int)
            } else {
                kept
            }
        }),
{
    let mut kept: Vec<SearchResult> = Vec::new();
    let mut i: usize = 0;
    let n = results.len();
    let rem = results;
    proof {
        assert(rviews(rem@).take(0) =~= Seq::<SearchResultView>::empty());
        assert(source_filter(Seq::<SearchResultView>::empty(), source@) =~= Seq::<
            SearchResultView,
        >::empty());
    }
    while i < n
        invariant
            i <= n,
            n == rem@.len(),
            rviews(kept@) == source_filter(rviews(rem@).take(i as int), source@),
            kept@.len() <= i,
        decreases n - i,
    {
        let ghost pre = rviews(rem@).take(i as int);
        proof {
            assert(rviews(rem@).take(i + 1).drop_last() =~= pre);
            assert(rviews(rem@).take(i + 1).last() == rem@[i as int]@);
        }
        if substr_eq(rem[i].source.as_str(), source) {
            let ghost rv = rem@[i as int]@;
            let ghost old_kept = kept@;
            let item = SearchResult {
                text: rem[i].text.clone(),
                score_milli: rem[i].score_milli,
                source: rem[i].source.clone(),
                metadata: match &rem[i].metadata {
                    Some(m) => Some(crate::insights::clone_pairs(m)),
                    None => None,
                },
            };
            kept.push(item);
            proof {
                assert(rviews(kept@) =~= source_filter(pre, source@).push(rv));
            }
        }
        i = i + 1;
    }
    proof {
        assert(rviews(rem@).take(n as int) =~= rviews(rem@));
    }
    let ghost sorted = rviews(kept@);
    let mut out = kept;
    while out.len() > limit
        invariant
            out@.len() <= sorted.len(),
            limit <= out@.len() || out@.len() == sorted.len(),
            rviews(out@) == sorted.take(out@.len() as int),
        decreases out@.len(),
    {
        let ghost before = out@;
        out.pop();
        proof {
            assert(rviews(out@) =~= rviews(before).drop_last());
            assert(sorted.take(before.len() as int).drop_last() =~= sorted.take(before.len() - 1));
        }
    }
    proof {
        assert(sorted.take(sorted.len() as int) =~= sorted);
    }
    out
}

/// A similarity score in thousandths rendered with two decimals, half
/// away from zero.
pub open spec fn spec_score2(m: int) -> Seq<char>
    decreases (if m < 0 {
        1int
    } else {
        0int
    }),
{
    if m < 0 {
        "-"@ + spec_score2(-m)
    } else {
        let total = (m + 5) / 10;
        let ip = total / 100;
        let fp = total % 100;
        spec_dec(ip) + "."@ + (if fp < 10 {
            "0"@ + spec_dec(fp)
        } else {
            spec_dec(fp)
        })
    }
}

/// Renders a score with two decimals, as `spec_score2` describes.
pub fn score2(m: i64) -> (r: String)
    ensures
        r@ == spec_score2(m as int),
{
    if m < 0 {
        let a = (-(m as i128)) as u64;
        proof {
            assert(a as int == -(m as int));
        }
        let mut r = String::new();
        r.append("-");
        let pos = score2_mag(a);
        r.append(pos.as_str());
        proof {
            assert(spec_score2(m as int) == "-"@ + spec_score2(-(m as int)));
            assert(r@ =~= "-"@ + pos@);
        }
        r
    } else {
        score2_mag(m as u64)
    }
}

/// Renders a non-negative score magnitude with two decimals.
fn score2_mag(m: u64) -> (r: String)
    requires
        m <= 0x8000_0000_0000_0000,
    ensures
        r@ == ({
            let total = (m + 5) / 10;
            let ip = total / 100;
            let fp = total % 100;
            spec_dec(ip as int) + "."@ + (if fp < 10 {
                "0"@ + spec_dec(fp as int)
            } else {
                spec_dec(fp as int)
            })
        }),
{
    let total = (m + 5) / 10;
    let ip = total / 100;
    let fp = total % 100;
    let mut r = u64_dec(ip);
    r.append(".");
    if fp < 10 {
        let mut t = String::new();
        t.append("0");
        let d = u64_dec(fp);
        t.append(d.as_str());
        r.append(t.as_str());
    } else {
        let d = u64_dec(fp);
        r.append(d.as_str());
    }
    r
}

/// One rendered result line.
pub open spec fn result_line(k: int, r: SearchResultView) -> Seq<char> {
    spec_dec(k + 1) + ". [Score: "@ + spec_score2(r.score_milli) + "] "@ + r.text + " (Source: "@
        + r.source + ")\n"@
}

/// The rendered result list, numbered from 1.
pub open spec fn spec_format_results(rs: Seq<SearchResultView>) -> Seq<char>
    decreases rs.len(),
{
    if rs.len() == 0 {
        Seq::empty()
    } else {
        spec_format_results(rs.drop_last()) + result_line(rs.len() - 1, rs.last())
    }
}

/// Renders ranked results one numbered line each, as
/// `spec_format_results` describes.
pub fn format_results(results: &Vec<SearchResult>) -> (r: String)
    ensures
        r@ == spec_format_results(rviews(results@)),
{
    let mut out = String::new();
    let mut k: usize = 0;
    let ghost rs = rviews(results@);
    proof {
        assert(spec_format_results(rs.take(0)) =~= Seq::<char>::empty());
        assert(out@ =~= spec_format_results(rs.take(0)));
    }
    while k < results.len()
        invariant
            k <= results@.len(),
            rs == rviews(results@),
            out@ == spec_format_results(rs.take(k as int)),
        decreases results@.len() - k,
    {
        proof {
            assert(rs.take(k + 1).drop_last() =~= rs.take(k as int));
            assert(rs.take(k + 1).last() == rs[k as int]);
        }
        let num = usize_dec(k + 1);
        out.append(num.as_str());
        out.append(". [Score: ");
        let sc = score2(results[k].score_milli);
        out.append(sc.as_str());
        out.append("] ");
        out.append(results[k].text.as_str());
        out.append(" (Source: ");
        out.append(results[k].source.as_str());
        out.append(")\n");
        k = k + 1;
    }
    proof {
        assert(rs.take(rs.len() as int) =~= rs);
    }
    out
}

/// The prompt that grounds a chat turn in formatted search results.
pub open spec fn spec_search_chat_prompt(results: Seq<char>, user_message: Seq<char>) -> Seq<
    char,
> {
    "Relevant search results:\n"@ + results + "\n\nUser: "@ + user_message + "\nAssistant:"@
}

/// Builds the search-grounded chat prompt, as `spec_search_chat_prompt`
/// describes.
pub fn search_chat_prompt(results: &str, user_message: &str) -> (r: String)
    ensures
        r@ == spec_search_chat_prompt(results@, user_message@),
{
    let mut r = String::new();
    r.append("Relevant search results:\n");
    r.append(results);
    r.append("\n\nUser: ");
    r.append(user_message);
    r.append("\nAssistant:");
    r
}

/// The semantic-search component: it owns the collection name; the index
/// connection and the backends stay with the caller, which hands raw hits
/// in and takes prepared payloads out.
pub struct SemanticSearch {
    collection_name: String,
}

impl SemanticSearch {
    /// The name of the index collection searched.
    pub closed spec fn collection(&self) -> Seq<char> {
        self.collection_name@
    }

    /// A search over the fixed semantic-search collection.
    pub fn new() -> (r: Self)
        ensures
            r.collection() == "semantic_search"@,
    {
        SemanticSearch { collection_name: "semantic_search".to_owned() }
    }

    /// The collection name, for the caller that owns the index connection.
    pub fn collection_name(&self) -> (r: &String)
        ensures
            r@ == self.collection(),
    {
        &self.collection_name
    }

    /// Prepares the payload a text is indexed under; see
    /// `prepare_index_payload`.
    pub fn index_text(
        &self,
        text: &str,
        source: &str,
        metadata: Option<Vec<(String, String)>>,
    ) -> (r: SourcePayload)
        ensures
            r@.text == Some(text@),
            r@.source == Some(source@),
    {
        prepare_index_payload(text, source, metadata)
    }

    /// Decodes ranked hits; see `decode_search_hits`.
    pub fn search(&self, points: &Vec<SourcePoint>) -> (r: Vec<SearchResult>)
        ensures
            rviews(r@) == decode_hits(spviews(points@)),
    {
        decode_search_hits(points)
    }

    /// Narrows decoded hits to one source; see `filter_by_source`.
    pub fn search_by_source(
        &self,
        results: Vec<SearchResult>,
        source: &str,
        limit: usize,
    ) -> (r: Vec<SearchResult>)
        ensures
            ({
                let kept = source_filter(rviews(results@), source@);
                rviews(r@) == if limit <= kept.len() {
                    kept.take(limit as int)
                } else {
                    kept
                }
            }),
    {
        filter_by_source(results, source, limit)
    }

    /// Renders ranked results; see `format_results`.
    pub fn format_results(&self, results: &Vec<SearchResult>) -> (r: String)
        ensures
            r@ == spec_format_results(rviews(results@)),
    {
        format_results(results)
    }
}

} // verus!
