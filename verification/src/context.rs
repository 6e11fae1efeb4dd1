//! Assembly of grounding context for the next completion call: recent
//! memories rendered oldest-to-newest, semantically similar memories
//! deduplicated against them by exact text, and a character budget under
//! which relevance gives way to recency.  Also the fixed prompts the engine
//! sends to its backends.

use vstd::prelude::*;

use crate::memory::{mviews, substr_eq, Memory, MemoryView};
use crate::text::push_char;

verus! {

/// Default character budget of an assembled context.
pub const MAX_CONTEXT_CHARS: usize = 4000;

/// One rendered conversation line.
pub open spec fn chat_line(m: MemoryView) -> Seq<char> {
    m.role + ": "@ + m.text + "\n"@
}

/// The memories in reverse order.
pub open spec fn rev_seq(ms: Seq<MemoryView>) -> Seq<MemoryView> {
    Seq::new(ms.len(), |i: int| ms[ms.len() - 1 - i])
}

/// The concatenated lines of the memories, in order.
pub open spec fn lines_fwd(ms: Seq<MemoryView>) -> Seq<char>
    decreases ms.len(),
{
    if ms.len() == 0 {
        Seq::empty()
    } else {
        lines_fwd(ms.drop_last()) + chat_line(ms.last())
    }
}

/// The texts of the memories.
pub open spec fn texts_of(ms: Seq<MemoryView>) -> Seq<Seq<char>> {
    ms.map_values(|m: MemoryView| m.text)
}

/// The recent section: a header, then the memories oldest first.
pub open spec fn render_recent(recent: Seq<MemoryView>) -> Seq<char> {
    "Recent Conversation:\n"@ + lines_fwd(rev_seq(recent))
}

/// The relevant section's lines: each similar memory whose text does not
/// already appear among the recent ones.
pub open spec fn render_similar(sim: Seq<MemoryView>, recent_texts: Seq<Seq<char>>) -> Seq<char>
    decreases sim.len(),
{
    if sim.len() == 0 {
        Seq::empty()
    } else {
        render_similar(sim.drop_last(), recent_texts) + (if recent_texts.contains(
            sim.last().text,
        ) {
            Seq::<char>::empty()
        } else {
            "[Previous] "@ + chat_line(sim.last())
        })
    }
}

/// The header that opens the relevant section.
pub open spec fn similar_header() -> Seq<char> {
    "\nRelevant Past Messages:\n"@
}

/// The placeholder that replaces the relevant section under space
/// pressure.
pub open spec fn truncation_notice() -> Seq<char> {
    "\nRelevant Past Messages: [Truncated for length]"@
}

/// The assembled context: recent then relevant sections; when the whole
/// rendering exceeds the budget, the recent section is kept intact and the
/// relevant section gives way to a placeholder.
pub open spec fn spec_context(
    recent: Seq<MemoryView>,
    similar: Seq<MemoryView>,
    budget: int,
) -> Seq<char> {
    let full = render_recent(recent) + similar_header() + render_similar(
        similar,
        texts_of(recent),
    );
    if full.len() > budget {
        render_recent(recent) + truncation_notice()
    } else {
        full
    }
}

/// Whether some recent memory has exactly this text.
fn text_among(recent: &Vec<Memory>, text: &str) -> (r: bool)
    ensures
        r == texts_of(mviews(recent@)).contains(text@),
{
    let mut k: usize = 0;
    while k < recent.len()
        invariant
            k <= recent@.len(),
            forall|j: int| 0 <= j < k ==> (#[trigger] recent@[j])@.text != text@,
        decreases recent@.len() - k,
    {
        if substr_eq(recent[k].text.as_str(), text) {
            assert(texts_of(mviews(recent@))[k as int] == text@);
            return true;
        }
        k = k + 1;
    }
    proof {
        if texts_of(mviews(recent@)).contains(text@) {
            let j = choose|j: int|
                0 <= j < texts_of(mviews(recent@)).len() && texts_of(mviews(recent@))[j] == text@;
            assert(recent@[j]@.text == text@);
        }
    }
    false
}

/// Appends one `role: text` line.
fn append_line(out: &mut String, m: &Memory)
    ensures
        final(out)@ == old(out)@ + chat_line(m@),
{
    out.append(m.role.as_str());
    out.append(": ");
    out.append(m.text.as_str());
    out.append("\n");
}

/// Merges recent and similar memories into one bounded context string, as
/// `spec_context` describes.  Empty inputs render as empty sections; the
/// function never fails.
pub fn build_conversation_context(
    recent: &Vec<Memory>,
    similar: &Vec<Memory>,
    budget: usize,
) -> (r: String)
    ensures
        r@ == spec_context(mviews(recent@), mviews(similar@), budget as int),
{
    let ghost rviews = mviews(recent@);
    let ghost rrev = rev_seq(rviews);
    let n = recent.len();
    let mut rp = String::new();
    rp.append("Recent Conversation:\n");
    let mut j: usize = 0;
    proof {
        assert(lines_fwd(rrev.take(0)) =~= Seq::<char>::empty());
        assert(rp@ =~= "Recent Conversation:\n"@ + lines_fwd(rrev.take(0)));
    }
    while j < n
        invariant
            j <= n,
            n == recent@.len(),
            rviews == mviews(recent@),
            rrev == rev_seq(rviews),
            rp@ == "Recent Conversation:\n"@ + lines_fwd(rrev.take(j as int)),
        decreases n - j,
    {
        let m = &recent[n - 1 - j];
        proof {
            assert(rrev.take(j + 1).drop_last() =~= rrev.take(j as int));
            assert(rrev.take(j + 1).last() == rrev[j as int]);
            assert(rrev[j as int] == rviews[n - 1 - j]);
        }
        append_line(&mut rp, m);
        j = j + 1;
    }
    proof {
        assert(rrev.take(rrev.len() as int) =~= rrev);
        assert(rp@ == render_recent(rviews));
    }
    let ghost sviews = mviews(similar@);
    let mut sp = String::new();
    let mut k: usize = 0;
    proof {
        assert(render_similar(sviews.take(0), texts_of(rviews)) =~= Seq::<char>::empty());
        assert(sp@ =~= render_similar(sviews.take(0), texts_of(rviews)));
    }
    while k < similar.len()
        invariant
            k <= similar@.len(),
            rviews == mviews(recent@),
            sviews == mviews(similar@),
            sp@ == render_similar(sviews.take(k as int), texts_of(rviews)),
        decreases similar@.len() - k,
    {
        let m = &similar[k];
        proof {
            assert(sviews.take(k + 1).drop_last() =~= sviews.take(k as int));
            assert(sviews.take(k + 1).last() == sviews[k as int]);
        }
        if !text_among(recent, m.text.as_str()) {
            sp.append("[Previous] ");
            append_line(&mut sp, m);
        }
        k = k + 1;
    }
    proof {
        assert(sviews.take(sviews.len() as int) =~= sviews);
    }
    let mut full = rp.clone();
    full.append("\nRelevant Past Messages:\n");
    full.append(sp.as_str());
    if full.as_str().unicode_len() > budget {
        let mut out = rp;
        out.append("\nRelevant Past Messages: [Truncated for length]");
        out
    } else {
        full
    }
}

/// The digit characters.
pub open spec fn digit_char_of(d: int) -> char {
    if d == 0 {
        '0'
    } else if d == 1 {
        '1'
    } else if d == 2 {
        '2'
    } else if d == 3 {
        '3'
    } else if d == 4 {
        '4'
    } else if d == 5 {
        '5'
    } else if d == 6 {
        '6'
    } else if d == 7 {
        '7'
    } else if d == 8 {
        '8'
    } else {
        '9'
    }
}

/// The decimal rendering of a non-negative number.
pub open spec fn spec_dec(n: int) -> Seq<char>
    decreases n when n >= 0
{
    if n < 10 {
        seq![digit_char_of(n)]
    } else {
        spec_dec(n / 10).push(digit_char_of(n % 10))
    }
}

/// Renders a number in decimal, as `spec_dec` describes.
pub fn usize_dec(n: usize) -> (r: String)
    ensures
        r@ == spec_dec(n as int),
{
    u64_dec(n as u64)
}

/// Renders a number in decimal, as `spec_dec` describes.
pub fn u64_dec(n: u64) -> (r: String)
    ensures
        r@ == spec_dec(n as int),
    decreases n,
{
    if n < 10 {
        let mut s = String::new();
        let c = match n {
            0 => '0',
            1 => '1',
            2 => '2',
            3 => '3',
            4 => '4',
            5 => '5',
            6 => '6',
            7 => '7',
            8 => '8',
            _ => '9',
        };
        push_char(&mut s, c);
        proof {
            assert(s@ =~= seq![digit_char_of(n as int)]);
        }
        s
    } else {
        let mut s = u64_dec(n / 10);
        let d = n % 10;
        let c = match d {
            0 => '0',
            1 => '1',
            2 => '2',
            3 => '3',
            4 => '4',
            5 => '5',
            6 => '6',
            7 => '7',
            8 => '8',
            _ => '9',
        };
        push_char(&mut s, c);
        proof {
            assert(s@ == spec_dec((n / 10) as int).push(digit_char_of((n % 10) as int)));
        }
        s
    }
}

/// The prompt sent to the completion backend for one conversational turn:
/// the assembled context, the session id, and the user's message.
pub open spec fn spec_chat_prompt(
    context: Seq<char>,
    session_id: Seq<char>,
    user_message: Seq<char>,
) -> Seq<char> {
    "Conversation Context:\n"@ + context + "\n\nCurrent Session ID: "@ + session_id + "\n\nUser: "@
        + user_message + "\nAssistant:"@
}

/// Builds the turn prompt, as `spec_chat_prompt` describes.
pub fn chat_prompt(context: &str, session_id: &str, user_message: &str) -> (r: String)
    ensures
        r@ == spec_chat_prompt(context@, session_id@, user_message@),
{
    let mut r = String::new();
    r.append("Conversation Context:\n");
    r.append(context);
    r.append("\n\nCurrent Session ID: ");
    r.append(session_id);
    r.append("\n\nUser: ");
    r.append(user_message);
    r.append("\nAssistant:");
    r
}

/// A conversation joined as `role: text` lines separated by newlines.
pub open spec fn conversation_of(ms: Seq<MemoryView>) -> Seq<char>
    decreases ms.len(),
{
    if ms.len() == 0 {
        Seq::empty()
    } else if ms.len() == 1 {
        ms[0].role + ": "@ + ms[0].text
    } else {
        conversation_of(ms.drop_last()) + "\n"@ + ms.last().role + ": "@ + ms.last().text
    }
}

/// The prompt that asks the completion backend for a session summary.
pub open spec fn spec_session_summary_prompt(ms: Seq<MemoryView>) -> Seq<char> {
    "Summarize the key points of this conversation in 2-3 sentences:\n\n"@ + conversation_of(ms)
}

/// Builds the session-summary prompt, as `spec_session_summary_prompt`
/// describes.
pub fn session_summary_prompt(memories: &Vec<Memory>) -> (r: String)
    ensures
        r@ == spec_session_summary_prompt(mviews(memories@)),
{
    let mut conv = String::new();
    let mut k: usize = 0;
    let ghost ms = mviews(memories@);
    proof {
        assert(conversation_of(ms.take(0)) =~= Seq::<char>::empty());
        assert(conv@ =~= conversation_of(ms.take(0)));
    }
    while k < memories.len()
        invariant
            k <= memories@.len(),
            ms == mviews(memories@),
            conv@ == conversation_of(ms.take(k as int)),
        decreases memories@.len() - k,
    {
        proof {
            assert(ms.take(k + 1).drop_last() =~= ms.take(k as int));
            assert(ms.take(k + 1).last() == ms[k as int]);
            assert(ms.take(k + 1)[0] == ms[0]);
        }
        if k > 0 {
            conv.append("\n");
        }
        conv.append(memories[k].role.as_str());
        conv.append(": ");
        conv.append(memories[k].text.as_str());
        k = k + 1;
    }
    proof {
        assert(ms.take(ms.len() as int) =~= ms);
    }
    let mut r = String::new();
    r.append("Summarize the key points of this conversation in 2-3 sentences:\n\n");
    r.append(conv.as_str());
    r
}

} // verus!
