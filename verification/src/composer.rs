//! Social-post composition helpers: an explicitly owned topic-dedup cache
//! with a daily retention rule, token estimation, response cleaning, and
//! length-capped content.

use vstd::prelude::*;

use crate::insights::{trim_chars, trim_seq};
use crate::text::{
    chars_vec, contains_chars, contains_seq, copy_span, is_space_char, lower_of, lowercase,
    next_match, next_nomatch, split_from, string_from_chars,
};

verus! {

/// Longest content a post may carry, in characters.
pub const MAX_TWEET_LENGTH: usize = 270;

/// Most topics the dedup cache remembers.
pub const MAX_TOPIC_CACHE: usize = 1000;

/// How long a used topic blocks similar ones, in milliseconds.
pub const TOPIC_RETENTION_MILLIS: i64 = 86_400_000;

/// An ASCII punctuation character.
pub open spec fn is_ascii_punct(c: char) -> bool {
    (33 <= c as u32 <= 47) || (58 <= c as u32 <= 64) || (91 <= c as u32 <= 96) || (123 <= c as u32
        <= 126)
}

/// The separator class of the token estimator: whitespace or ASCII
/// punctuation.
pub open spec fn token_sep_pred() -> spec_fn(char) -> bool {
    |c: char| is_space_char(c) || is_ascii_punct(c)
}

/// Runtime check matching the token separator class.
fn token_sep(c: char) -> (r: bool)
    ensures
        r == token_sep_pred()(c),
{
    let u = c as u32;
    let punct = (33 <= u && u <= 47) || (58 <= u && u <= 64) || (91 <= u && u <= 96) || (123 <= u
        && u <= 126);
    crate::text::space_char(c) || punct
}

/// The composer of posts, replies and messages; all its helpers are
/// stateless, topic dedup state being passed in explicitly.
pub struct TweetComposer;

impl TweetComposer {
    /// Estimates tokens by counting runs separated by whitespace or
    /// punctuation.
    pub fn count_tokens(text: &str) -> (r: usize)
        ensures
            r == split_from(text@, 0, token_sep_pred()).len(),
    {
        let v = chars_vec(text);
        let n = v.len();
        let mut count: usize = 0;
        let mut i: usize = 0;
        proof {
            crate::text::lemma_next_nomatch(v@, 0, token_sep_pred());
        }
        while i < n && token_sep(v[i])
            invariant
                i <= n,
                n == v@.len(),
                next_nomatch(v@, 0, token_sep_pred()) == next_nomatch(
                    v@,
                    i as int,
                    token_sep_pred(),
                ),
            decreases n - i,
        {
            i = i + 1;
        }
        proof {
            assert(next_nomatch(v@, i as int, token_sep_pred()) == i as int);
            crate::chunker::lemma_split_from_align(v@, 0, token_sep_pred());
        }
        while i < n
            invariant
                i <= n,
                n == v@.len(),
                next_nomatch(v@, i as int, token_sep_pred()) == i as int || i == n,
                count + split_from(v@, i as int, token_sep_pred()).len() == split_from(
                    v@,
                    0,
                    token_sep_pred(),
                ).len(),
                count <= i,
            decreases n - i,
        {
            proof {
                if next_nomatch(v@, i as int, token_sep_pred()) != i as int {
                    assert(false);
                }
            }
            let mut e: usize = i;
            while e < n && !token_sep(v[e])
                invariant
                    i <= e <= n,
                    n == v@.len(),
                    next_match(v@, i as int, token_sep_pred()) == next_match(
                        v@,
                        e as int,
                        token_sep_pred(),
                    ),
                decreases n - e,
            {
                e = e + 1;
            }
            proof {
                assert(next_match(v@, i as int, token_sep_pred()) == e as int);
                assert(split_from(v@, i as int, token_sep_pred()) == seq![
                    v@.subrange(i as int, e as int),
                ] + split_from(v@, e as int, token_sep_pred()));
            }
            count = count + 1;
            let mut j: usize = e;
            while j < n && token_sep(v[j])
                invariant
                    e <= j <= n,
                    n == v@.len(),
                    next_nomatch(v@, e as int, token_sep_pred()) == next_nomatch(
                        v@,
                        j as int,
                        token_sep_pred(),
                    ),
                decreases n - j,
            {
                j = j + 1;
            }
            proof {
                assert(next_nomatch(v@, j as int, token_sep_pred()) == j as int);
                crate::text::lemma_next_nomatch(v@, e as int, token_sep_pred());
                crate::chunker::lemma_split_from_align(v@, e as int, token_sep_pred());
                assert(next_nomatch(v@, e as int, token_sep_pred()) == j as int);
            }
            i = j;
        }
        proof {
            assert(split_from(v@, i as int, token_sep_pred()) =~= Seq::<Seq<char>>::empty());
        }
        count
    }

    /// Caps content at the fixed length, in characters.
    pub fn truncate_content(content: String) -> (r: String)
        ensures
            r@ == if content@.len() <= MAX_TWEET_LENGTH {
                content@
            } else {
                content@.take(MAX_TWEET_LENGTH as int)
            },
    {
        let v = chars_vec(content.as_str());
        let n = v.len();
        let e = if n <= MAX_TWEET_LENGTH {
            n
        } else {
            MAX_TWEET_LENGTH
        };
        let cut = copy_span(&v, 0, e);
        proof {
            if n <= MAX_TWEET_LENGTH {
                assert(v@.subrange(0, e as int) =~= content@);
            } else {
                assert(v@.subrange(0, e as int) =~= content@.take(MAX_TWEET_LENGTH as int));
            }
        }
        string_from_chars(&cut)
    }

    /// Whether a topic is unrelated to every cached one: neither contains
    /// the other, case ignored.
    pub fn is_topic_unique(cache: &TopicCache, topic: &str) -> (r: bool)
        ensures
            r == forall|k: int|
                0 <= k < cache@.len() ==> !topic_overlaps((#[trigger] cache@[k]).0, topic@),
    {
        let lt = lowercase(topic);
        let ltv = chars_vec(lt.as_str());
        let mut k: usize = 0;
        while k < cache.entries.len()
            invariant
                k <= cache@.len(),
                cache@.len() == cache.entries@.len(),
                ltv@ == lower_of(topic@),
                forall|j: int| 0 <= j < k ==> !topic_overlaps((#[trigger] cache@[j]).0, topic@),
                forall|j: int|
                    0 <= j < cache@.len() ==> (#[trigger] cache@[j]) == (
                    cache.entries@[j].0@,
                    cache.entries@[j].1 as int,
                ),
            decreases cache@.len() - k,
        {
            let lc = lowercase(cache.entries[k].0.as_str());
            let lcv = chars_vec(lc.as_str());
            if contains_chars(&lcv, &ltv) || contains_chars(&ltv, &lcv) {
                proof {
                    assert(topic_overlaps(cache@[k as int].0, topic@));
                }
                return false;
            }
            k = k + 1;
        }
        true
    }
}

/// Two topics overlap when, case ignored, one contains the other.
pub open spec fn topic_overlaps(cached: Seq<char>, topic: Seq<char>) -> bool {
    contains_seq(lower_of(cached), lower_of(topic)) || contains_seq(lower_of(topic), lower_of(
        cached,
    ))
}

/// The explicitly owned dedup cache of recently used topics, each with the
/// time it was recorded.
pub struct TopicCache {
    /// The remembered topics with their timestamps, in insertion order.
    pub entries: Vec<(String, i64)>,
}

impl View for TopicCache {
    type V = Seq<(Seq<char>, int)>;

    open spec fn view(&self) -> Seq<(Seq<char>, int)> {
        self.entries@.map_values(|e: (String, i64)| (e.0@, e.1 as int))
    }
}

impl TopicCache {
    /// Starts empty.
    pub fn new() -> (r: Self)
        ensures
            r@ == Seq::<(Seq<char>, int)>::empty(),
    {
        let r = TopicCache { entries: Vec::new() };
        proof {
            assert(r@ =~= Seq::<(Seq<char>, int)>::empty());
        }
        r
    }

    /// Records one used topic at time `now`.
    pub fn add(&mut self, topic: String, now: i64)
        ensures
            final(self)@ == old(self)@.push((topic@, now as int)),
    {
        let ghost t = topic@;
        self.entries.push((topic, now));
        proof {
            assert(final(self)@ =~= old(self)@.push((t, now as int)));
        }
    }

    /// Forgets every topic recorded more than the retention window before
    /// `now`; what stays keeps its order.
    pub fn clean_old(&mut self, now: i64)
        ensures
            final(self)@ == old(self)@.filter(
                |e: (Seq<char>, int)| e.1 > now - TOPIC_RETENTION_MILLIS,
            ),
    {
        let mut kept: Vec<(String, i64)> = Vec::new();
        let mut i: usize = 0;
        let n = self.entries.len();
        let ghost old_view = self@;
        proof {
            assert(old_view.take(0) =~= Seq::<(Seq<char>, int)>::empty());
            reveal(Seq::filter);
            assert(kept@.map_values(|e: (String, i64)| (e.0@, e.1 as int)) =~= old_view.take(
                0,
            ).filter(|e: (Seq<char>, int)| e.1 > now - TOPIC_RETENTION_MILLIS));
        }
        while i < n
            invariant
                i <= n,
                n == self.entries@.len(),
                old_view == self@,
                old_view.len() == n,
                kept@.map_values(|e: (String, i64)| (e.0@, e.1 as int)) == old_view.take(
                    i as int,
                ).filter(|e: (Seq<char>, int)| e.1 > now - TOPIC_RETENTION_MILLIS),
            decreases n - i,
        {
            let ghost pre = old_view.take(i as int);
            let ghost cur = old_view.take(i + 1);
            proof {
                reveal(Seq::filter);
                assert(cur.drop_last() =~= pre);
                assert(cur.last() == old_view[i as int]);
                assert(old_view[i as int] == (self.entries@[i as int].0@, self.entries@[i as int].1
                    as int));
            }
            let keep = {
                let ts = self.entries[i].1;
                (ts as i128) > (now as i128) - (TOPIC_RETENTION_MILLIS as i128)
            };
            if keep {
                let ghost old_kept = kept@;
                let item = (self.entries[i].0.clone(), self.entries[i].1);
                kept.push(item);
                proof {
                    assert(kept@.map_values(|e: (String, i64)| (e.0@, e.1 as int)) =~= old_kept.map_values(
                        |e: (String, i64)| (e.0@, e.1 as int),
                    ).push(old_view[i as int]));
                }
            }
            i = i + 1;
        }
        proof {
            assert(old_view.take(n as int) =~= old_view);
        }
        self.entries = kept;
    }

    /// How many topics are remembered.
    pub fn len(&self) -> (r: usize)
        ensures
            r == self@.len(),
    {
        self.entries.len()
    }
}

/// At most the first three sample posts, numbered from 1, one per line.
pub open spec fn numbered_join(ts: Seq<Seq<char>>) -> Seq<char>
    decreases ts.len(),
{
    if ts.len() == 0 {
        Seq::empty()
    } else {
        numbered_join(ts.drop_last()) + (if ts.len() == 1 {
            Seq::<char>::empty()
        } else {
            "\n"@
        }) + crate::context::spec_dec(ts.len() as int) + ". "@ + ts.last()
    }
}

/// The sample posts the composer quotes: the first three.
pub open spec fn taken_tweets(p: crate::personality::PersonalityView) -> Seq<Seq<char>> {
    if p.example_tweets.len() <= 3 {
        p.example_tweets
    } else {
        p.example_tweets.take(3)
    }
}

/// The posting instructions appended to the profile's prompt.
pub open spec fn posting_part(p: crate::personality::PersonalityView) -> Seq<char> {
    "\nWhen tweeting, you should:\n- Share insights from your expertise in "@
        + crate::personality::or_default(p.expertise, "your field"@)
        + "\n- Maintain your unique voice and personality traits\n- Keep your communication style consistent\n- Draw from your specific knowledge and experience\n- Stay authentic to your character\n\nRemember: You are "@
        + p.name + " - "@ + crate::personality::or_default(p.description, "an expert in your field"@)
        + ". Always tweet in character."@
}

/// The system message the composer drives its backend with: the profile's
/// prompt, the posting instructions, and up to three numbered sample
/// posts, the parts joined by newlines.
pub open spec fn spec_system_message(p: crate::personality::PersonalityView) -> Seq<char> {
    crate::personality::spec_system_prompt(p) + "\n"@ + posting_part(p) + (if taken_tweets(
        p,
    ).len() > 0 {
        "\n"@ + "\nYour tweet style examples (maintain similar voice and approach):\n"@
            + numbered_join(taken_tweets(p))
    } else {
        Seq::<char>::empty()
    })
}

impl TweetComposer {
    /// Builds the composer's system message, as `spec_system_message`
    /// describes.
    pub fn create_system_message(profile: &crate::personality::PersonalityProfile) -> (r: String)
        ensures
            r@ == spec_system_message(profile@),
    {
        let ghost p = profile@;
        let mut r = profile.generate_system_prompt();
        r.append("\n");
        r.append("\nWhen tweeting, you should:\n- Share insights from your expertise in ");
        match &profile.expertise {
            Some(e) => {
                r.append(e.as_str());
            },
            None => {
                r.append("your field");
            },
        }
        r.append(
            "\n- Maintain your unique voice and personality traits\n- Keep your communication style consistent\n- Draw from your specific knowledge and experience\n- Stay authentic to your character\n\nRemember: You are ",
        );
        r.append(profile.name.as_str());
        r.append(" - ");
        match &profile.description {
            Some(d) => {
                r.append(d.as_str());
            },
            None => {
                r.append("an expert in your field");
            },
        }
        r.append(". Always tweet in character.");
        proof {
            assert(r@ =~= crate::personality::spec_system_prompt(p) + "\n"@ + posting_part(p));
        }
        let n = if profile.example_tweets.len() <= 3 {
            profile.example_tweets.len()
        } else {
            3
        };
        proof {
            if profile.example_tweets@.len() <= 3 {
                assert(taken_tweets(p) == p.example_tweets);
            }
            assert(taken_tweets(p).len() == n);
        }
        if n > 0 {
            r.append("\n");
            r.append("\nYour tweet style examples (maintain similar voice and approach):\n");
            let mut k: usize = 0;
            let ghost taken = taken_tweets(p);
            let ghost before = r@;
            proof {
                assert(numbered_join(taken.take(0)) =~= Seq::<char>::empty());
                assert(r@ =~= before + numbered_join(taken.take(0)));
            }
            while k < n
                invariant
                    k <= n,
                    n <= profile.example_tweets@.len(),
                    taken == taken_tweets(profile@),
                    taken.len() == n,
                    forall|j: int| 0 <= j < n ==> taken[j] == profile.example_tweets@[j]@,
                    r@ == before + numbered_join(taken.take(k as int)),
                decreases n - k,
            {
                proof {
                    assert(taken.take(k + 1).drop_last() =~= taken.take(k as int));
                    assert(taken.take(k + 1).last() == taken[k as int]);
                }
                if k > 0 {
                    r.append("\n");
                }
                let num = crate::context::usize_dec(k + 1);
                r.append(num.as_str());
                r.append(". ");
                r.append(profile.example_tweets[k].as_str());
                k = k + 1;
            }
            proof {
                assert(taken.take(taken.len() as int) =~= taken);
            }
        }
        r
    }
}

/// The strip applied to a generated topic: trim, drop repeated `Topic:`
/// prefixes, drop surrounding double quotes, trim again.
pub open spec fn spec_clean_topic(s: Seq<char>) -> Seq<char> {
    trim_seq(
        strip_char_end(
            strip_char_start(
                crate::insights::strip_prefix_repeat(trim_seq(s), "Topic:"@),
                '"',
            ),
            '"',
        ),
    )
}

/// Text with every leading copy of one character removed.
pub open spec fn strip_char_start(s: Seq<char>, c: char) -> Seq<char>
    decreases s.len(),
{
    if s.len() > 0 && s.first() == c {
        strip_char_start(s.drop_first(), c)
    } else {
        s
    }
}

/// Text with every trailing copy of one character removed.
pub open spec fn strip_char_end(s: Seq<char>, c: char) -> Seq<char>
    decreases s.len(),
{
    if s.len() > 0 && s.last() == c {
        strip_char_end(s.drop_last(), c)
    } else {
        s
    }
}

/// Removes leading copies of one character, as `strip_char_start`
/// describes.
fn strip_start_vec(v: &Vec<char>, c: char) -> (r: Vec<char>)
    ensures
        r@ == strip_char_start(v@, c),
{
    let mut a: usize = 0;
    let n = v.len();
    proof {
        assert(v@.skip(0) =~= v@);
    }
    while a < n && v[a] == c
        invariant
            a <= n,
            n == v@.len(),
            strip_char_start(v@, c) == strip_char_start(v@.skip(a as int), c),
        decreases n - a,
    {
        assert(v@.skip(a as int).drop_first() =~= v@.skip(a + 1));
        a = a + 1;
    }
    proof {
        if a < n {
            assert(v@.skip(a as int).first() == v@[a as int]);
        } else {
            assert(v@.skip(a as int) =~= Seq::<char>::empty());
        }
        assert(strip_char_start(v@.skip(a as int), c) == v@.skip(a as int));
        assert(v@.subrange(a as int, n as int) =~= v@.skip(a as int));
    }
    copy_span(v, a, n)
}

/// Removes trailing copies of one character, as `strip_char_end`
/// describes.
fn strip_end_vec(v: &Vec<char>, c: char) -> (r: Vec<char>)
    ensures
        r@ == strip_char_end(v@, c),
{
    let mut b: usize = v.len();
    proof {
        assert(v@.take(v@.len() as int) =~= v@);
    }
    while b > 0 && v[b - 1] == c
        invariant
            b <= v@.len(),
            strip_char_end(v@, c) == strip_char_end(v@.take(b as int), c),
        decreases b,
    {
        assert(v@.take(b as int).drop_last() =~= v@.take(b - 1));
        assert(v@.take(b as int).last() == v@[b - 1]);
        b = b - 1;
    }
    proof {
        if b > 0 {
            assert(v@.take(b as int).last() == v@[b - 1]);
        }
        assert(strip_char_end(v@.take(b as int), c) == v@.take(b as int));
        assert(v@.subrange(0, b as int) =~= v@.take(b as int));
    }
    copy_span(v, 0, b)
}

/// Cleans a generated topic, as `spec_clean_topic` describes.
pub fn clean_topic_response(response: &str) -> (r: String)
    ensures
        r@ == spec_clean_topic(response@),
{
    let raw = chars_vec(response);
    let t1 = trim_chars(&raw);
    let mut p: Vec<char> = Vec::new();
    p.push('T');
    p.push('o');
    p.push('p');
    p.push('i');
    p.push('c');
    p.push(':');
    proof {
        assert(p@ =~= "Topic:"@) by {
            reveal_strlit("Topic:");
        }
    }
    let t2 = crate::insights::strip_prefix_vec(&t1, &p);
    let t3 = strip_start_vec(&t2, '"');
    let t4 = strip_end_vec(&t3, '"');
    let t5 = trim_chars(&t4);
    string_from_chars(&t5)
}

/// The strip applied to a generated post before the length cap: trim,
/// drop repeated `Tweet:` prefixes, drop surrounding double quotes, trim
/// again.
pub open spec fn spec_clean_tweet(s: Seq<char>) -> Seq<char> {
    trim_seq(
        strip_char_end(
            strip_char_start(
                crate::insights::strip_prefix_repeat(trim_seq(s), "Tweet:"@),
                '"',
            ),
            '"',
        ),
    )
}

/// Cleans a generated post, as `spec_clean_tweet` describes.
pub fn clean_tweet_response(response: &str) -> (r: String)
    ensures
        r@ == spec_clean_tweet(response@),
{
    let raw = chars_vec(response);
    let t1 = trim_chars(&raw);
    let mut p: Vec<char> = Vec::new();
    p.push('T');
    p.push('w');
    p.push('e');
    p.push('e');
    p.push('t');
    p.push(':');
    proof {
        assert(p@ =~= "Tweet:"@) by {
            reveal_strlit("Tweet:");
        }
    }
    let t2 = crate::insights::strip_prefix_vec(&t1, &p);
    let t3 = strip_start_vec(&t2, '"');
    let t4 = strip_end_vec(&t3, '"');
    let t5 = trim_chars(&t4);
    string_from_chars(&t5)
}

} // verus!
