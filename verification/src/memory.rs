//! The session-scoped conversational memory: one record per stored turn,
//! carried to and from the vector index as a plain payload.  The store
//! validates embedding dimensions, stamps records with the current session,
//! decodes search results (dropping undecodable payloads silently), and
//! ranks records by recency or importance on the client side.

use vstd::prelude::*;

use crate::error::MemoryError;
use crate::session::{SessionManager, SessionView};
use crate::EMBEDDING_DIM;

verus! {

/// Importance given to a stored turn before any later analysis, in
/// thousandths.
pub const DEFAULT_IMPORTANCE_MILLI: i64 = 1000;

/// One remembered conversational turn.  Times are milliseconds since the
/// epoch; importance is in thousandths, clamped to 0..=1000.
#[derive(Debug)]
pub struct Memory {
    pub text: String,
    pub timestamp_millis: i64,
    pub role: String,
    pub session_id: String,
    pub importance_milli: i64,
    pub topic_tags: Vec<String>,
    pub metadata: Option<Vec<(String, String)>>,
}

/// Mathematical value of a `Memory`.
pub ghost struct MemoryView {
    pub text: Seq<char>,
    pub timestamp_millis: int,
    pub role: Seq<char>,
    pub session_id: Seq<char>,
    pub importance_milli: int,
    pub topic_tags: Seq<Seq<char>>,
    pub metadata: Option<Seq<(Seq<char>, Seq<char>)>>,
}

/// The views of a list of strings.
pub open spec fn strings_view(v: Seq<String>) -> Seq<Seq<char>> {
    v.map_values(|s: String| s@)
}

impl View for Memory {
    type V = MemoryView;

    open spec fn view(&self) -> MemoryView {
        MemoryView {
            text: self.text@,
            timestamp_millis: self.timestamp_millis as int,
            role: self.role@,
            session_id: self.session_id@,
            importance_milli: self.importance_milli as int,
            topic_tags: strings_view(self.topic_tags@),
            metadata: match self.metadata {
                Some(m) => Some(crate::insights::pairs_view(m@)),
                None => None,
            },
        }
    }
}

/// The views of a list of memories.
pub open spec fn mviews(v: Seq<Memory>) -> Seq<MemoryView> {
    v.map_values(|m: Memory| m@)
}

/// What the vector index stores alongside a memory's embedding.  Every
/// field a decoder might miss is optional.
#[derive(Debug)]
pub struct MemoryPayload {
    pub text: Option<String>,
    pub timestamp_millis: Option<i64>,
    pub role: Option<String>,
    pub session_id: Option<String>,
    pub importance_milli: Option<i64>,
    pub topic_tags: Option<Vec<String>>,
    pub metadata: Option<Vec<(String, String)>>,
}

/// Mathematical value of a `MemoryPayload`.
pub ghost struct MemoryPayloadView {
    pub text: Option<Seq<char>>,
    pub timestamp_millis: Option<int>,
    pub role: Option<Seq<char>>,
    pub session_id: Option<Seq<char>>,
    pub importance_milli: Option<int>,
    pub topic_tags: Option<Seq<Seq<char>>>,
    pub metadata: Option<Seq<(Seq<char>, Seq<char>)>>,
}

impl View for MemoryPayload {
    type V = MemoryPayloadView;

    open spec fn view(&self) -> MemoryPayloadView {
        MemoryPayloadView {
            text: match self.text {
                Some(ref s) => Some(s@),
                None => None,
            },
            timestamp_millis: match self.timestamp_millis {
                Some(t) => Some(t as int),
                None => None,
            },
            role: match self.role {
                Some(ref s) => Some(s@),
                None => None,
            },
            session_id: match self.session_id {
                Some(ref s) => Some(s@),
                None => None,
            },
            importance_milli: match self.importance_milli {
                Some(t) => Some(t as int),
                None => None,
            },
            topic_tags: match self.topic_tags {
                Some(ref v) => Some(strings_view(v@)),
                None => None,
            },
            metadata: match self.metadata {
                Some(ref m) => Some(crate::insights::pairs_view(m@)),
                None => None,
            },
        }
    }
}

/// One ranked hit handed back by the vector index: its id, its similarity
/// score in thousandths, and the stored payload.
pub struct ScoredPoint {
    pub id: String,
    pub score_milli: i64,
    pub payload: MemoryPayload,
}

/// The payloads of a list of scored points.
pub open spec fn payloads_of(v: Seq<ScoredPoint>) -> Seq<MemoryPayloadView> {
    v.map_values(|p: ScoredPoint| p.payload@)
}

/// The payload a memory is stored under: every field present.
pub open spec fn payload_of(m: MemoryView) -> MemoryPayloadView {
    MemoryPayloadView {
        text: Some(m.text),
        timestamp_millis: Some(m.timestamp_millis),
        role: Some(m.role),
        session_id: Some(m.session_id),
        importance_milli: Some(m.importance_milli),
        topic_tags: Some(m.topic_tags),
        metadata: m.metadata,
    }
}

/// How a payload decodes back into a memory: text, timestamp and role must
/// all be present, else the payload is undecodable; the rest fall back to
/// defaults.
pub open spec fn spec_decode(p: MemoryPayloadView) -> Option<MemoryView> {
    match (p.text, p.timestamp_millis, p.role) {
        (Some(text), Some(ts), Some(role)) => Some(
            MemoryView {
                text: text,
                timestamp_millis: ts,
                role: role,
                session_id: match p.session_id {
                    Some(s) => s,
                    None => Seq::empty(),
                },
                importance_milli: match p.importance_milli {
                    Some(i) => i,
                    None => DEFAULT_IMPORTANCE_MILLI as int,
                },
                topic_tags: match p.topic_tags {
                    Some(t) => t,
                    None => Seq::empty(),
                },
                metadata: p.metadata,
            },
        ),
        _ => None,
    }
}

/// The memories of a list of payloads, undecodable ones dropped, order
/// kept.
pub open spec fn decode_all(ps: Seq<MemoryPayloadView>) -> Seq<MemoryView>
    decreases ps.len(),
{
    if ps.len() == 0 {
        Seq::empty()
    } else {
        let rest = decode_all(ps.drop_last());
        match spec_decode(ps.last()) {
            Some(m) => rest.push(m),
            None => rest,
        }
    }
}

/// Decoding keeps the index's ranking: when the top-ranked payload is
/// decodable, its record comes back as the top result.  So whenever the
/// index ranks a stored record first — as a cosine index does for a query
/// equal to the record's own embedding — the search returns that record
/// first.
pub proof fn lemma_decode_keeps_top(ps: Seq<MemoryPayloadView>)
    requires
        ps.len() > 0,
        spec_decode(ps[0]) is Some,
    ensures
        decode_all(ps).len() > 0,
        decode_all(ps)[0] == spec_decode(ps[0])->Some_0,
    decreases ps.len(),
{
    if ps.len() == 1 {
        assert(ps.drop_last().len() == 0);
        assert(ps.last() == ps[0]);
        assert(decode_all(ps.drop_last()) =~= Seq::<MemoryView>::empty());
        assert(decode_all(ps) == decode_all(ps.drop_last()).push(spec_decode(ps[0])->Some_0));
    } else {
        assert(ps.drop_last()[0] == ps[0]);
        lemma_decode_keeps_top(ps.drop_last());
        let rest = decode_all(ps.drop_last());
        match spec_decode(ps.last()) {
            Some(m) => {
                assert(decode_all(ps) == rest.push(m));
                assert(decode_all(ps)[0] == rest[0]);
            },
            None => {},
        }
    }
}

/// Copies a list of strings, preserving its views.
pub fn clone_strings(v: &Vec<String>) -> (r: Vec<String>)
    ensures
        strings_view(r@) == strings_view(v@),
        r@.len() == v@.len(),
{
    let mut r: Vec<String> = Vec::new();
    let mut i: usize = 0;
    while i < v.len()
        invariant
            i <= v@.len(),
            r@.len() == i,
            forall|k: int| 0 <= k < i ==> (#[trigger] r@[k])@ == v@[k]@,
        decreases v@.len() - i,
    {
        r.push(v[i].clone());
        i = i + 1;
    }
    proof {
        assert(strings_view(r@) =~= strings_view(v@));
    }
    r
}

/// An all-zero query vector of the fixed embedding dimension, the store's
/// recency approximation.
pub fn zero_embedding() -> (r: Vec<i64>)
    ensures
        r@.len() == EMBEDDING_DIM,
        forall|i: int| 0 <= i < r@.len() ==> r@[i] == 0,
{
    let mut r: Vec<i64> = Vec::new();
    let mut i: usize = 0;
    while i < EMBEDDING_DIM
        invariant
            i <= EMBEDDING_DIM,
            r@.len() == i,
            forall|k: int| 0 <= k < i ==> r@[k] == 0,
        decreases EMBEDDING_DIM - i,
    {
        r.push(0);
        i = i + 1;
    }
    r
}

/// Decodes one payload, as `spec_decode` describes.
pub fn decode_memory(p: &MemoryPayload) -> (r: Option<Memory>)
    ensures
        match r {
            Some(m) => spec_decode(p@) == Some(m@),
            None => spec_decode(p@) is None,
        },
{
    let text = match &p.text {
        Some(t) => t.clone(),
        None => {
            return None;
        },
    };
    let ts = match p.timestamp_millis {
        Some(t) => t,
        None => {
            return None;
        },
    };
    let role = match &p.role {
        Some(rl) => rl.clone(),
        None => {
            return None;
        },
    };
    let session_id = match &p.session_id {
        Some(s) => s.clone(),
        None => String::new(),
    };
    let importance_milli = match p.importance_milli {
        Some(i) => i,
        None => DEFAULT_IMPORTANCE_MILLI,
    };
    let topic_tags = match &p.topic_tags {
        Some(t) => clone_strings(t),
        None => Vec::new(),
    };
    let metadata = match &p.metadata {
        Some(m) => Some(crate::insights::clone_pairs(m)),
        None => None,
    };
    let m = Memory {
        text,
        timestamp_millis: ts,
        role,
        session_id,
        importance_milli,
        topic_tags,
        metadata,
    };
    proof {
        assert(strings_view(Seq::<String>::empty()) =~= Seq::<Seq<char>>::empty());
    }
    Some(m)
}

/// Decodes a batch of search results in order, dropping undecodable
/// payloads, as `decode_all` describes.
pub fn memories_from_search(results: &Vec<ScoredPoint>) -> (r: Vec<Memory>)
    ensures
        mviews(r@) == decode_all(payloads_of(results@)),
{
    let mut r: Vec<Memory> = Vec::new();
    let mut i: usize = 0;
    while i < results.len()
        invariant
            i <= results@.len(),
            mviews(r@) == decode_all(payloads_of(results@).take(i as int)),
        decreases results@.len() - i,
    {
        let ghost pre = payloads_of(results@).take(i as int);
        let ghost cur = payloads_of(results@).take(i + 1);
        proof {
            assert(cur.drop_last() =~= pre);
            assert(cur.last() == results@[i as int].payload@);
        }
        match decode_memory(&results[i].payload) {
            Some(m) => {
                let ghost mv = m@;
                r.push(m);
                proof {
                    assert(mviews(r@) =~= decode_all(pre).push(mv));
                }
            },
            None => {},
        }
        i = i + 1;
    }
    proof {
        assert(payloads_of(results@).take(results@.len() as int) =~= payloads_of(results@));
    }
    r
}

/// The ranking key used for client-side ordering.
pub open spec fn rank_key(m: MemoryView, by_importance: bool) -> int {
    if by_importance {
        m.importance_milli
    } else {
        m.timestamp_millis
    }
}

/// Sorted so that keys never increase.
pub open spec fn sorted_desc(s: Seq<MemoryView>, by_importance: bool) -> bool {
    forall|i: int, j: int|
        0 <= i <= j < s.len() ==> rank_key(#[trigger] s[i], by_importance) >= rank_key(
            #[trigger] s[j],
            by_importance,
        )
}

/// The ranking key of one memory.
fn key_of(m: &Memory, by_importance: bool) -> (r: i64)
    ensures
        r as int == rank_key(m@, by_importance),
{
    if by_importance {
        m.importance_milli
    } else {
        m.timestamp_millis
    }
}

/// Index of a memory with the largest key.
fn index_of_max(v: &Vec<Memory>, by_importance: bool) -> (r: usize)
    requires
        v@.len() > 0,
    ensures
        r < v@.len(),
        forall|k: int|
            0 <= k < v@.len() ==> rank_key(#[trigger] v@[k]@, by_importance) <= rank_key(
                v@[r as int]@,
                by_importance,
            ),
{
    let mut best: usize = 0;
    let mut i: usize = 1;
    while i < v.len()
        invariant
            best < i <= v@.len(),
            forall|k: int|
                0 <= k < i ==> rank_key(#[trigger] v@[k]@, by_importance) <= rank_key(
                    v@[best as int]@,
                    by_importance,
                ),
        decreases v@.len() - i,
    {
        if key_of(&v[i], by_importance) > key_of(&v[best], by_importance) {
            best = i;
        }
        i = i + 1;
    }
    best
}

/// Sorts memories so their ranking keys never increase; the records are a
/// permutation of the input.
pub fn sort_desc(v: Vec<Memory>, by_importance: bool) -> (r: Vec<Memory>)
    ensures
        r@.len() == v@.len(),
        sorted_desc(mviews(r@), by_importance),
        mviews(r@).to_multiset() == mviews(v@).to_multiset(),
{
    broadcast use vstd::seq_lib::group_to_multiset_ensures;

    let mut rem = v;
    let mut out: Vec<Memory> = Vec::new();
    proof {
        assert(mviews(out@).to_multiset().add(mviews(rem@).to_multiset()) =~= mviews(
            rem@,
        ).to_multiset());
    }
    while rem.len() > 0
        invariant
            mviews(out@).to_multiset().add(mviews(rem@).to_multiset()) == mviews(v@).to_multiset(),
            out@.len() + rem@.len() == v@.len(),
            sorted_desc(mviews(out@), by_importance),
            forall|i: int, j: int|
                0 <= i < out@.len() && 0 <= j < rem@.len() ==> rank_key(
                    #[trigger] out@[i]@,
                    by_importance,
                ) >= rank_key(#[trigger] rem@[j]@, by_importance),
        decreases rem@.len(),
    {
        let mi = index_of_max(&rem, by_importance);
        let ghost old_rem = rem@;
        let ghost old_out = out@;
        let m = rem.remove(mi);
        let ghost mv = m@;
        out.push(m);
        proof {
            broadcast use vstd::seq_lib::group_to_multiset_ensures;

            assert(mviews(old_rem)[mi as int] == mv);
            vstd::seq_lib::to_multiset_remove(mviews(old_rem), mi as int);
            vstd::seq_lib::to_multiset_build(mviews(old_out), mv);
            assert(mviews(rem@) =~= mviews(old_rem).remove(mi as int));
            assert(mviews(rem@).to_multiset() =~= mviews(old_rem).to_multiset().remove(mv));
            assert(mviews(out@) =~= mviews(old_out).push(mv));
            assert(mviews(out@).to_multiset() =~= mviews(old_out).to_multiset().insert(mv));
            assert(mviews(old_rem).contains(mv));
            assert(mviews(old_rem).to_multiset().count(mv) > 0);
            assert(mviews(out@).to_multiset().add(mviews(rem@).to_multiset()) =~= mviews(
                old_out,
            ).to_multiset().add(mviews(old_rem).to_multiset()));
            assert forall|i: int, j: int|
                0 <= i <= j < mviews(out@).len() implies rank_key(
                #[trigger] mviews(out@)[i],
                by_importance,
            ) >= rank_key(#[trigger] mviews(out@)[j], by_importance) by {
                if j < old_out.len() {
                    assert(mviews(out@)[i] == old_out[i]@ && mviews(out@)[j] == old_out[j]@);
                } else {
                    assert(mviews(out@)[j] == mv);
                }
            }
        }
    }
    proof {
        assert(mviews(rem@) =~= Seq::<MemoryView>::empty());
        assert(mviews(out@).to_multiset().add(Seq::<MemoryView>::empty().to_multiset()) =~= mviews(
            out@,
        ).to_multiset());
        assert(mviews(out@).to_multiset().len() == mviews(v@).to_multiset().len());
    }
    out
}

/// Decodes search results and ranks them most recent first: how a
/// recency-approximating search is post-processed.
pub fn recent_from_search(results: &Vec<ScoredPoint>) -> (r: Vec<Memory>)
    ensures
        sorted_desc(mviews(r@), false),
        mviews(r@).to_multiset() == decode_all(payloads_of(results@)).to_multiset(),
        r@.len() == decode_all(payloads_of(results@)).len(),
{
    broadcast use vstd::seq_lib::group_to_multiset_ensures;

    let decoded = memories_from_search(results);
    proof {
        assert(mviews(decoded@).to_multiset().len() == mviews(decoded@).len());
    }
    sort_desc(decoded, false)
}

/// The memories whose session id matches.
pub open spec fn session_filter(ms: Seq<MemoryView>, sid: Seq<char>) -> Seq<MemoryView>
    decreases ms.len(),
{
    if ms.len() == 0 {
        Seq::empty()
    } else {
        let rest = session_filter(ms.drop_last(), sid);
        if ms.last().session_id == sid {
            rest.push(ms.last())
        } else {
            rest
        }
    }
}

/// Keeps the decoded memories of one session, in order: the client-side
/// filter behind a session search.
pub fn search_by_session_from(results: &Vec<ScoredPoint>, session_id: &str) -> (r: Vec<Memory>)
    ensures
        mviews(r@) == session_filter(decode_all(payloads_of(results@)), session_id@),
{
    let decoded = memories_from_search(results);
    let mut r: Vec<Memory> = Vec::new();
    let mut i: usize = 0;
    let n = decoded.len();
    let mut rem = decoded;
    proof {
        assert(mviews(rem@).take(0) =~= Seq::<MemoryView>::empty());
        assert(session_filter(Seq::<MemoryView>::empty(), session_id@) =~= Seq::<
            MemoryView,
        >::empty());
    }
    while i < n
        invariant
            i <= n,
            n == rem@.len(),
            mviews(r@) == session_filter(mviews(rem@).take(i as int), session_id@),
        decreases n - i,
    {
        let ghost pre = mviews(rem@).take(i as int);
        let ghost cur = mviews(rem@).take(i + 1);
        proof {
            assert(cur.drop_last() =~= pre);
            assert(cur.last() == rem@[i as int]@);
        }
        let matches = substr_eq(rem[i].session_id.as_str(), session_id);
        if matches {
            let ghost mv = rem@[i as int]@;
            let m = copy_memory(&rem[i]);
            r.push(m);
            proof {
                assert(mviews(r@) =~= session_filter(pre, session_id@).push(mv));
            }
        }
        i = i + 1;
    }
    proof {
        assert(mviews(rem@).take(n as int) =~= mviews(rem@));
    }
    r
}

/// Compares two string slices by contents.
pub fn substr_eq(a: &str, b: &str) -> (r: bool)
    ensures
        r == (a@ == b@),
{
    let na = a.unicode_len();
    let nb = b.unicode_len();
    if na != nb {
        return false;
    }
    let mut i: usize = 0;
    while i < na
        invariant
            i <= na,
            na == a@.len(),
            na == b@.len(),
            forall|k: int| 0 <= k < i ==> a@[k] == b@[k],
        decreases na - i,
    {
        if a.get_char(i) != b.get_char(i) {
            return false;
        }
        i = i + 1;
    }
    proof {
        assert(a@ =~= b@);
    }
    true
}

/// The memories tagged with a topic.
pub open spec fn tag_filter(ms: Seq<MemoryView>, topic: Seq<char>) -> Seq<MemoryView>
    decreases ms.len(),
{
    if ms.len() == 0 {
        Seq::empty()
    } else {
        let rest = tag_filter(ms.drop_last(), topic);
        if ms.last().topic_tags.contains(topic) {
            rest.push(ms.last())
        } else {
            rest
        }
    }
}

/// Whether a memory carries the topic among its tags.
pub fn has_tag(m: &Memory, topic: &str) -> (r: bool)
    ensures
        r == m@.topic_tags.contains(topic@),
{
    let mut i: usize = 0;
    while i < m.topic_tags.len()
        invariant
            i <= m.topic_tags@.len(),
            forall|k: int| 0 <= k < i ==> m@.topic_tags[k] != topic@,
        decreases m.topic_tags@.len() - i,
    {
        if substr_eq(m.topic_tags[i].as_str(), topic) {
            assert(m@.topic_tags[i as int] == topic@);
            return true;
        }
        i = i + 1;
    }
    proof {
        if m@.topic_tags.contains(topic@) {
            let k = choose|k: int| 0 <= k < m@.topic_tags.len() && m@.topic_tags[k] == topic@;
        }
    }
    false
}

/// Decodes search results, keeps those tagged with the topic, ranks them
/// most important first, and keeps at most `limit`.
pub fn topic_context_from(results: &Vec<ScoredPoint>, topic: &str, limit: usize) -> (r: Vec<
    Memory,
>)
    ensures
        exists|sorted: Seq<MemoryView>|
            {
                let filtered = tag_filter(decode_all(payloads_of(results@)), topic@);
                &&& #[trigger] sorted.to_multiset() == filtered.to_multiset()
                &&& sorted_desc(sorted, true)
                &&& mviews(r@) == if limit <= sorted.len() {
                    sorted.take(limit as int)
                } else {
                    sorted
                }
            },
{
    let decoded = memories_from_search(results);
    let ghost all = mviews(decoded@);
    let mut filtered: Vec<Memory> = Vec::new();
    let mut i: usize = 0;
    let n = decoded.len();
    while i < n
        invariant
            i <= n,
            n == decoded@.len(),
            all == mviews(decoded@),
            mviews(filtered@) == tag_filter(all.take(i as int), topic@),
        decreases n - i,
    {
        let ghost pre = all.take(i as int);
        let ghost cur = all.take(i + 1);
        proof {
            assert(cur.drop_last() =~= pre);
            assert(cur.last() == decoded@[i as int]@);
        }
        if has_tag(&decoded[i], topic) {
            let ghost mv = decoded@[i as int]@;
            let m = copy_memory(&decoded[i]);
            filtered.push(m);
            proof {
                assert(mviews(filtered@) =~= tag_filter(pre, topic@).push(mv));
            }
        }
        i = i + 1;
    }
    proof {
        assert(all.take(n as int) =~= all);
    }
    let mut out = sort_desc(filtered, true);
    let ghost sorted = mviews(out@);
    while out.len() > limit
        invariant
            out@.len() <= sorted.len(),
            limit <= out@.len() || out@.len() == sorted.len(),
            mviews(out@) == sorted.take(out@.len() as int),
        decreases out@.len(),
    {
        let ghost before = out@;
        out.pop();
        proof {
            assert(mviews(out@) =~= mviews(before).drop_last());
            assert(sorted.take(before.len() as int).drop_last() =~= sorted.take(
                before.len() - 1,
            ));
        }
    }
    proof {
        assert(sorted.take(sorted.len() as int) =~= sorted);
        let filtered_spec = tag_filter(decode_all(payloads_of(results@)), topic@);
        assert(sorted.to_multiset() == filtered_spec.to_multiset() && sorted_desc(sorted, true)
            && mviews(out@) == (if limit <= sorted.len() {
            sorted.take(limit as int)
        } else {
            sorted
        }));
    }
    out
}

/// What a memory's timestamp renders as.  Relies on chrono's UTC calendar
/// formatting, a function of the milliseconds alone.
pub uninterp spec fn format_timestamp(millis: int) -> Seq<char>;

/// Relies on `chrono::DateTime::from_timestamp_millis` and `format` with a
/// fixed UTC date-time pattern: deterministic in the milliseconds, no
/// locale or zone involved; out-of-range times render empty.
#[verifier::external_body]
fn render_timestamp(millis: i64) -> (r: String)
    ensures
        r@ == format_timestamp(millis as int),
{
    match chrono::DateTime::<chrono::Utc>::from_timestamp_millis(millis) {
        Some(dt) => dt.format("%Y-%m-%d %H:%M:%S").to_string(),
        None => String::new(),
    }
}

/// One line of a summary: the bracketed timestamp, the role and the text.
pub open spec fn line_of(m: MemoryView) -> Seq<char> {
    "["@ + format_timestamp(m.timestamp_millis) + "] "@ + m.role + ": "@ + m.text + "\n"@
}

/// A summary: the lines of the memories, in order.
pub open spec fn summary_of(ms: Seq<MemoryView>) -> Seq<char>
    decreases ms.len(),
{
    if ms.len() == 0 {
        Seq::empty()
    } else {
        summary_of(ms.drop_last()) + line_of(ms.last())
    }
}

/// Copies one memory, preserving its value.
pub fn copy_memory(m: &Memory) -> (r: Memory)
    ensures
        r@ == m@,
{
    Memory {
        text: m.text.clone(),
        timestamp_millis: m.timestamp_millis,
        role: m.role.clone(),
        session_id: m.session_id.clone(),
        importance_milli: m.importance_milli,
        topic_tags: clone_strings(&m.topic_tags),
        metadata: match &m.metadata {
            Some(md) => Some(crate::insights::clone_pairs(md)),
            None => None,
        },
    }
}

/// Renders the memories as summary lines, as `summary_of` describes.
pub fn summarize_memories(memories: &Vec<Memory>) -> (r: String)
    ensures
        r@ == summary_of(mviews(memories@)),
{
    let mut out = String::new();
    let mut i: usize = 0;
    proof {
        assert(summary_of(mviews(memories@).take(0)) =~= Seq::<char>::empty());
    }
    while i < memories.len()
        invariant
            i <= memories@.len(),
            out@ == summary_of(mviews(memories@).take(i as int)),
        decreases memories@.len() - i,
    {
        let ghost pre = mviews(memories@).take(i as int);
        let ghost cur = mviews(memories@).take(i + 1);
        proof {
            assert(cur.drop_last() =~= pre);
            assert(cur.last() == memories@[i as int]@);
        }
        let m = &memories[i];
        out.append("[");
        let ts = render_timestamp(m.timestamp_millis);
        out.append(ts.as_str());
        out.append("] ");
        out.append(m.role.as_str());
        out.append(": ");
        out.append(m.text.as_str());
        out.append("\n");
        i = i + 1;
    }
    proof {
        assert(mviews(memories@).take(memories@.len() as int) =~= mviews(memories@));
    }
    out
}

/// The trimmed, non-blank entries of a comma-split tag list.
pub open spec fn trimmed_tags(ls: Seq<Seq<char>>) -> Seq<Seq<char>>
    decreases ls.len(),
{
    if ls.len() == 0 {
        Seq::empty()
    } else {
        let rest = trimmed_tags(ls.drop_last());
        if crate::insights::trim_seq(ls.last()).len() > 0 {
            rest.push(crate::insights::trim_seq(ls.last()))
        } else {
            rest
        }
    }
}

/// The importance in thousandths read from the second response part: a
/// fully-consumed decimal, clamped to 0..=1000, with the default on any
/// parse failure.
pub open spec fn spec_importance(t: Seq<char>) -> int {
    match crate::insights::spec_parse_number(t, 0) {
        Some((m, p)) => if p == t.len() {
            if m < 0 {
                0int
            } else if m > 1000 {
                1000int
            } else {
                m
            }
        } else {
            DEFAULT_IMPORTANCE_MILLI as int
        },
        None => DEFAULT_IMPORTANCE_MILLI as int,
    }
}

/// How a tagging response is read: exactly one `|` separates a
/// comma-separated tag list from an importance score; anything else
/// yields no tags and the default importance.
pub open spec fn spec_tag_response(s: Seq<char>) -> (Seq<Seq<char>>, int) {
    let p1 = crate::text::next_match(s, 0, crate::text::eq_pred('|'));
    if p1 >= s.len() {
        (Seq::empty(), DEFAULT_IMPORTANCE_MILLI as int)
    } else {
        let p2 = crate::text::next_match(s, p1 + 1, crate::text::eq_pred('|'));
        if p2 < s.len() {
            (Seq::empty(), DEFAULT_IMPORTANCE_MILLI as int)
        } else {
            (
                trimmed_tags(
                    crate::text::split_from(
                        s.subrange(0, p1),
                        0,
                        crate::text::eq_pred(','),
                    ),
                ),
                spec_importance(crate::insights::trim_seq(s.subrange(p1 + 1, s.len() as int))),
            )
        }
    }
}

/// Reads a tagging response, as `spec_tag_response` describes: the topic
/// tags and the clamped importance of an analyzed message.
pub fn parse_tag_response(response: &str) -> (r: (Vec<String>, i64))
    ensures
        (strings_view(r.0@), r.1 as int) == spec_tag_response(response@),
{
    let v = crate::text::chars_vec(response);
    let n = v.len();
    let mut p1: usize = 0;
    proof {
        crate::text::lemma_next_match(v@, 0, crate::text::eq_pred('|'));
    }
    while p1 < n && v[p1] != '|'
        invariant
            p1 <= n,
            n == v@.len(),
            crate::text::next_match(v@, 0, crate::text::eq_pred('|')) == crate::text::next_match(v@, p1 as int, crate::text::eq_pred('|')),
        decreases n - p1,
    {
        assert(!crate::text::eq_pred('|')(v@[p1 as int]));
        p1 = p1 + 1;
    }
    proof {
        if p1 < n {
            assert(crate::text::eq_pred('|')(v@[p1 as int]));
        }
        assert(crate::text::next_match(v@, 0, crate::text::eq_pred('|')) == p1 as int);
    }
    if p1 >= n {
        let tags: Vec<String> = Vec::new();
        proof {
            assert(strings_view(tags@) =~= Seq::<Seq<char>>::empty());
        }
        return (tags, DEFAULT_IMPORTANCE_MILLI);
    }
    let mut p2: usize = p1 + 1;
    proof {
        crate::text::lemma_next_match(v@, p1 + 1, crate::text::eq_pred('|'));
    }
    while p2 < n && v[p2] != '|'
        invariant
            p1 + 1 <= p2 <= n,
            n == v@.len(),
            crate::text::next_match(v@, p1 + 1, crate::text::eq_pred('|')) == crate::text::next_match(v@, p2 as int, crate::text::eq_pred('|')),
        decreases n - p2,
    {
        assert(!crate::text::eq_pred('|')(v@[p2 as int]));
        p2 = p2 + 1;
    }
    proof {
        if p2 < n {
            assert(crate::text::eq_pred('|')(v@[p2 as int]));
        }
        assert(crate::text::next_match(v@, p1 + 1, crate::text::eq_pred('|')) == p2 as int);
    }
    if p2 < n {
        let tags: Vec<String> = Vec::new();
        proof {
            assert(strings_view(tags@) =~= Seq::<Seq<char>>::empty());
        }
        return (tags, DEFAULT_IMPORTANCE_MILLI);
    }
    let before = crate::text::copy_span(&v, 0, p1);
    let after = crate::text::copy_span(&v, p1 + 1, n);
    let segs = crate::text::split_on_char(&before, ',');
    let ghost segviews = crate::chunker::views(segs@);
    let mut tags: Vec<String> = Vec::new();
    let mut k: usize = 0;
    proof {
        assert(trimmed_tags(segviews.take(0)) =~= Seq::<Seq<char>>::empty());
        assert(strings_view(tags@) =~= trimmed_tags(segviews.take(0)));
    }
    while k < segs.len()
        invariant
            k <= segs@.len(),
            segviews == crate::chunker::views(segs@),
            strings_view(tags@) == trimmed_tags(segviews.take(k as int)),
        decreases segs@.len() - k,
    {
        let ghost pre = segviews.take(k as int);
        proof {
            assert(segviews.take(k + 1).drop_last() =~= pre);
            assert(segviews.take(k + 1).last() == segs@[k as int]@);
        }
        let trimmed = crate::insights::trim_chars(&segs[k]);
        if trimmed.len() > 0 {
            let ghost tv = trimmed@;
            let ghost old_tags = tags@;
            tags.push(crate::text::string_from_chars(&trimmed));
            proof {
                assert(strings_view(tags@) =~= trimmed_tags(pre).push(tv));
            }
        }
        k = k + 1;
    }
    proof {
        assert(segviews.take(segviews.len() as int) =~= segviews);
    }
    let imp_chars = crate::insights::trim_chars(&after);
    let imp = match crate::insights::parse_number_prefix(&imp_chars) {
        Some((m, p)) => {
            if p == imp_chars.len() {
                if m < 0 {
                    0
                } else if m > 1000 {
                    1000
                } else {
                    m
                }
            } else {
                DEFAULT_IMPORTANCE_MILLI
            }
        },
        None => DEFAULT_IMPORTANCE_MILLI,
    };
    (tags, imp)
}

/// The session id a new record is stamped with: the current session's, or
/// the fixed fallback when no session is live.
pub open spec fn stamp_session_id(cur: Option<SessionView>) -> Seq<char> {
    match cur {
        Some(s) => s.id,
        None => "default"@,
    }
}

/// The record a stored turn becomes, before indexing.
pub open spec fn fresh_record(
    text: Seq<char>,
    role: Seq<char>,
    session_id: Seq<char>,
    now: int,
    metadata: Option<Seq<(Seq<char>, Seq<char>)>>,
) -> MemoryView {
    MemoryView {
        text: text,
        timestamp_millis: now,
        role: role,
        session_id: session_id,
        importance_milli: DEFAULT_IMPORTANCE_MILLI as int,
        topic_tags: Seq::empty(),
        metadata: metadata,
    }
}

/// The session-scoped store: stamps and validates records on the way into
/// the vector index and decodes them on the way out.  The index itself is
/// an external collaborator; these methods do everything around its calls.
pub struct MemoryManager {
    collection_name: String,
    /// The conversation-session state the store stamps records with.
    pub sessions: SessionManager,
}

impl MemoryManager {
    /// The name of the index collection the store writes to.
    pub closed spec fn collection(&self) -> Seq<char> {
        self.collection_name@
    }

    /// The current session, if one is live.
    pub closed spec fn session_state(&self) -> Option<SessionView> {
        self.sessions.current()
    }

    /// A store over the fixed conversation-memory collection, with no live
    /// session.
    pub fn new() -> (r: Self)
        ensures
            r.collection() == "conversation_memory"@,
            r.session_state() is None,
    {
        MemoryManager {
            collection_name: "conversation_memory".to_owned(),
            sessions: SessionManager::new(),
        }
    }

    /// The collection name, for the caller that owns the index connection.
    pub fn collection_name(&self) -> (r: &String)
        ensures
            r@ == self.collection(),
    {
        &self.collection_name
    }

    /// Validates and stamps one turn for storage at time `now`: rejected
    /// with the dimension error iff the embedding does not have the fixed
    /// length, else the record and the exact payload to index it under.
    /// The record takes the current session's id, or the fallback id when
    /// no session is live.
    pub fn prepare_store(
        &self,
        text: &str,
        role: &str,
        embedding: &Vec<i64>,
        metadata: Option<Vec<(String, String)>>,
        now: i64,
    ) -> (r: Result<(Memory, MemoryPayload), MemoryError>)
        ensures
            match r {
                Ok(pair) => {
                    &&& crate::valid_embedding(embedding@)
                    &&& pair.0@ == fresh_record(
                        text@,
                        role@,
                        stamp_session_id(self.session_state()),
                        now as int,
                        match metadata {
                            Some(ref m) => Some(crate::insights::pairs_view(m@)),
                            None => None,
                        },
                    )
                    &&& pair.1@ == payload_of(pair.0@)
                },
                Err(e) => {
                    &&& !crate::valid_embedding(embedding@)
                    &&& e matches MemoryError::Dimension(want, got) && want == EMBEDDING_DIM && got
                        == embedding@.len()
                },
            },
    {
        if embedding.len() != EMBEDDING_DIM {
            return Err(MemoryError::Dimension(EMBEDDING_DIM, embedding.len()));
        }
        let session_id = match self.sessions.current_session_id() {
            Some(id) => id,
            None => "default".to_owned(),
        };
        let memory = Memory {
            text: text.to_owned(),
            timestamp_millis: now,
            role: role.to_owned(),
            session_id,
            importance_milli: DEFAULT_IMPORTANCE_MILLI,
            topic_tags: Vec::new(),
            metadata,
        };
        let payload = MemoryPayload {
            text: Some(memory.text.clone()),
            timestamp_millis: Some(memory.timestamp_millis),
            role: Some(memory.role.clone()),
            session_id: Some(memory.session_id.clone()),
            importance_milli: Some(memory.importance_milli),
            topic_tags: Some(clone_strings(&memory.topic_tags)),
            metadata: match &memory.metadata {
                Some(m) => Some(crate::insights::clone_pairs(m)),
                None => None,
            },
        };
        proof {
            assert(strings_view(Seq::<String>::empty()) =~= Seq::<Seq<char>>::empty());
        }
        Ok((memory, payload))
    }

    /// Starts a new session on the current clock; see
    /// `SessionManager::start_new_session`.
    pub fn start_new_session(&mut self, topic: &str) -> (r: String)
        ensures
            final(self).collection() == old(self).collection(),
            match final(self).session_state() {
                Some(s) => {
                    &&& r@ == s.id
                    &&& s.id.len() == 36
                    &&& s.topic == topic@
                    &&& s.summary == Seq::<char>::empty()
                    &&& s.start_time_millis == s.last_active_millis
                },
                None => false,
            },
    {
        self.sessions.start_new_session(topic)
    }

    /// Continues or supersedes the current session on the current clock;
    /// see `SessionManager::get_or_create_session`.
    pub fn get_or_create_session(&mut self, topic: Option<&str>) -> (r: String)
        ensures
            final(self).collection() == old(self).collection(),
            exists|now: int, fresh: Seq<char>|
                {
                    &&& fresh.len() == 36
                    &&& final(self).session_state() == #[trigger] crate::session::session_step(
                        old(self).session_state(),
                        crate::session::spec_topic_or_default(topic),
                        now,
                        fresh,
                    ).0
                    &&& r@ == crate::session::session_step(
                        old(self).session_state(),
                        crate::session::spec_topic_or_default(topic),
                        now,
                        fresh,
                    ).1
                },
    {
        self.sessions.get_or_create_session(topic)
    }

    /// Retention cleanup is a policy stub: the index interface has no
    /// delete-by-age, so nothing is removed yet.
    pub fn cleanup_old_memories(&self) -> (r: Result<(), MemoryError>)
        ensures
            r is Ok,
    {
        Ok(())
    }
}

} // verus!
