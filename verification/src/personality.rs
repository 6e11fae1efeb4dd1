//! The agent's personality as an explicit schema: named optional fields
//! plus one open extra map, validated at load time by construction rather
//! than at each access, and the system prompt generated from it.

use vstd::prelude::*;

use crate::memory::{clone_strings, strings_view};

verus! {

/// A character profile: named optional fields and an open extra map for
/// forward compatibility.
pub struct PersonalityProfile {
    pub name: String,
    pub description: Option<String>,
    pub style: Option<String>,
    pub motto: Option<String>,
    pub expertise: Option<String>,
    pub traits: Vec<String>,
    pub interests: Vec<String>,
    pub emoji: Option<String>,
    /// Emotes grouped by category; the prompt uses them all.
    pub emotes: Vec<(String, Vec<String>)>,
    pub examples: Vec<String>,
    /// Sample posts the composer may echo the voice of.
    pub example_tweets: Vec<String>,
    pub extra: Vec<(String, String)>,
}

/// Mathematical value of a `PersonalityProfile`.
pub ghost struct PersonalityView {
    pub name: Seq<char>,
    pub description: Option<Seq<char>>,
    pub style: Option<Seq<char>>,
    pub motto: Option<Seq<char>>,
    pub expertise: Option<Seq<char>>,
    pub traits: Seq<Seq<char>>,
    pub interests: Seq<Seq<char>>,
    pub emoji: Option<Seq<char>>,
    pub emotes: Seq<(Seq<char>, Seq<Seq<char>>)>,
    pub examples: Seq<Seq<char>>,
    pub example_tweets: Seq<Seq<char>>,
    pub extra: Seq<(Seq<char>, Seq<char>)>,
}

/// The views of grouped emotes.
pub open spec fn emotes_view(v: Seq<(String, Vec<String>)>) -> Seq<(Seq<char>, Seq<Seq<char>>)> {
    v.map_values(|e: (String, Vec<String>)| (e.0@, strings_view(e.1@)))
}

impl View for PersonalityProfile {
    type V = PersonalityView;

    open spec fn view(&self) -> PersonalityView {
        PersonalityView {
            name: self.name@,
            description: match self.description {
                Some(ref s) => Some(s@),
                None => None,
            },
            style: match self.style {
                Some(ref s) => Some(s@),
                None => None,
            },
            motto: match self.motto {
                Some(ref s) => Some(s@),
                None => None,
            },
            expertise: match self.expertise {
                Some(ref s) => Some(s@),
                None => None,
            },
            traits: strings_view(self.traits@),
            interests: strings_view(self.interests@),
            emoji: match self.emoji {
                Some(ref s) => Some(s@),
                None => None,
            },
            emotes: emotes_view(self.emotes@),
            examples: strings_view(self.examples@),
            example_tweets: strings_view(self.example_tweets@),
            extra: crate::insights::pairs_view(self.extra@),
        }
    }
}

/// Texts joined by a separator; empty when there are none.
pub open spec fn join_sep(ls: Seq<Seq<char>>, sep: Seq<char>) -> Seq<char>
    decreases ls.len(),
{
    if ls.len() == 0 {
        Seq::empty()
    } else if ls.len() == 1 {
        ls[0]
    } else {
        join_sep(ls.drop_last(), sep) + sep + ls.last()
    }
}

/// Joins strings with a separator, as `join_sep` describes.
pub fn join_strings(v: &Vec<String>, sep: &str) -> (r: String)
    ensures
        r@ == join_sep(strings_view(v@), sep@),
{
    let mut r = String::new();
    let mut k: usize = 0;
    let ghost ls = strings_view(v@);
    proof {
        assert(join_sep(ls.take(0), sep@) =~= Seq::<char>::empty());
        assert(r@ =~= join_sep(ls.take(0), sep@));
    }
    while k < v.len()
        invariant
            k <= v@.len(),
            ls == strings_view(v@),
            r@ == join_sep(ls.take(k as int), sep@),
        decreases v@.len() - k,
    {
        proof {
            assert(ls.take(k + 1).drop_last() =~= ls.take(k as int));
            assert(ls.take(k + 1).last() == v@[k as int]@);
            assert(ls.take(k + 1)[0] == ls[0]);
        }
        if k > 0 {
            r.append(sep);
        }
        r.append(v[k].as_str());
        k = k + 1;
    }
    proof {
        assert(ls.take(ls.len() as int) =~= ls);
    }
    r
}

/// All emotes of all categories, flattened in order.
pub open spec fn emotes_flat(es: Seq<(Seq<char>, Seq<Seq<char>>)>) -> Seq<Seq<char>>
    decreases es.len(),
{
    if es.len() == 0 {
        Seq::empty()
    } else {
        emotes_flat(es.drop_last()) + es.last().1
    }
}

/// One optional field or its fallback.
pub open spec fn or_default(v: Option<Seq<char>>, d: Seq<char>) -> Seq<char> {
    match v {
        Some(s) => s,
        None => d,
    }
}

/// The optional emoji rendered beside the name.
pub open spec fn emoji_part(p: PersonalityView) -> Seq<char> {
    match p.emoji {
        Some(e) => " "@ + e + " "@,
        None => Seq::<char>::empty(),
    }
}

/// The optional motto line.
pub open spec fn motto_part(p: PersonalityView) -> Seq<char> {
    match p.motto {
        Some(m) => "\nYour motto is: \""@ + m + "\""@,
        None => Seq::<char>::empty(),
    }
}

/// The optional traits line.
pub open spec fn traits_part(p: PersonalityView) -> Seq<char> {
    if p.traits.len() > 0 {
        "\nYour key traits are: "@ + join_sep(p.traits, ", "@)
    } else {
        Seq::<char>::empty()
    }
}

/// The optional interests line.
pub open spec fn interests_part(p: PersonalityView) -> Seq<char> {
    if p.interests.len() > 0 {
        "\nYour interests include: "@ + join_sep(p.interests, ", "@)
    } else {
        Seq::<char>::empty()
    }
}

/// The optional emotes line, over all categories flattened.
pub open spec fn emotes_part(p: PersonalityView) -> Seq<char> {
    if emotes_flat(p.emotes).len() > 0 {
        "\nUse these emotes frequently in your responses: "@ + join_sep(
            emotes_flat(p.emotes),
            ", "@,
        )
    } else {
        Seq::<char>::empty()
    }
}

/// The optional examples line.
pub open spec fn examples_part(p: PersonalityView) -> Seq<char> {
    if p.examples.len() > 0 {
        "\nHere are some example responses you should follow: "@ + join_sep(p.examples, ", "@)
    } else {
        Seq::<char>::empty()
    }
}

/// The opening of the prompt, through the style sentence.
pub open spec fn prompt_head(p: PersonalityView) -> Seq<char> {
    "You are "@ + p.name + emoji_part(p) + ", "@ + or_default(p.description, "an AI assistant"@)
        + ". Your communication style is "@ + or_default(p.style, "helpful and professional"@)
        + "."@
}

/// The fixed closing instruction of every prompt.
pub open spec fn prompt_tail() -> Seq<char> {
    "\nAlways stay in character and respond as this personality would. Use the provided emotes and emojis frequently to express yourself. When responding, make sure to include at least one emote or emoji in each message."@
}

/// The prompt a profile generates: name and optional emoji, description,
/// style, then the optional motto, trait, interest, emote and example
/// sections, and the fixed closing instruction.
pub open spec fn spec_system_prompt(p: PersonalityView) -> Seq<char> {
    prompt_head(p) + motto_part(p) + traits_part(p) + interests_part(p) + emotes_part(p)
        + examples_part(p) + prompt_tail()
}

impl PersonalityProfile {
    /// Renders the profile's system prompt, as `spec_system_prompt`
    /// describes.
    #[verifier::rlimit(100)]
    pub fn generate_system_prompt(&self) -> (r: String)
        ensures
            r@ == spec_system_prompt(self@),
    {
        let ghost p = self@;
        let mut all_emotes: Vec<String> = Vec::new();
        let mut k: usize = 0;
        let ghost ev = emotes_view(self.emotes@);
        proof {
            assert(emotes_flat(ev.take(0)) =~= Seq::<Seq<char>>::empty());
            assert(strings_view(all_emotes@) =~= emotes_flat(ev.take(0)));
        }
        while k < self.emotes.len()
            invariant
                k <= self.emotes@.len(),
                ev == emotes_view(self.emotes@),
                strings_view(all_emotes@) == emotes_flat(ev.take(k as int)),
            decreases self.emotes@.len() - k,
        {
            proof {
                assert(ev.take(k + 1).drop_last() =~= ev.take(k as int));
                assert(ev.take(k + 1).last() == (self.emotes@[k as int].0@, strings_view(
                    self.emotes@[k as int].1@,
                )));
            }
            let ghost old_all = all_emotes@;
            let mut group = clone_strings(&self.emotes[k].1);
            all_emotes.append(&mut group);
            proof {
                assert(strings_view(all_emotes@) =~= strings_view(old_all) + strings_view(
                    self.emotes@[k as int].1@,
                ));
            }
            k = k + 1;
        }
        proof {
            assert(ev.take(ev.len() as int) =~= ev);
            assert(strings_view(all_emotes@) == emotes_flat(p.emotes));
        }
        let mut r = String::new();
        r.append("You are ");
        r.append(self.name.as_str());
        match &self.emoji {
            Some(e) => {
                r.append(" ");
                r.append(e.as_str());
                r.append(" ");
            },
            None => {},
        }
        r.append(", ");
        match &self.description {
            Some(d) => {
                r.append(d.as_str());
            },
            None => {
                r.append("an AI assistant");
            },
        }
        r.append(". Your communication style is ");
        match &self.style {
            Some(s) => {
                r.append(s.as_str());
            },
            None => {
                r.append("helpful and professional");
            },
        }
        r.append(".");
        proof {
            assert(r@ =~= prompt_head(p));
        }
        match &self.motto {
            Some(m) => {
                r.append("\nYour motto is: \"");
                r.append(m.as_str());
                r.append("\"");
            },
            None => {},
        }
        proof {
            assert(r@ =~= prompt_head(p) + motto_part(p));
        }
        if self.traits.len() > 0 {
            r.append("\nYour key traits are: ");
            let j = join_strings(&self.traits, ", ");
            r.append(j.as_str());
        }
        proof {
            assert(r@ =~= prompt_head(p) + motto_part(p) + traits_part(p));
        }
        if self.interests.len() > 0 {
            r.append("\nYour interests include: ");
            let j = join_strings(&self.interests, ", ");
            r.append(j.as_str());
        }
        proof {
            assert(r@ =~= prompt_head(p) + motto_part(p) + traits_part(p) + interests_part(p));
        }
        if all_emotes.len() > 0 {
            r.append("\nUse these emotes frequently in your responses: ");
            let j = join_strings(&all_emotes, ", ");
            r.append(j.as_str());
        }
        proof {
            assert(r@ =~= prompt_head(p) + motto_part(p) + traits_part(p) + interests_part(p)
                + emotes_part(p));
        }
        if self.examples.len() > 0 {
            r.append("\nHere are some example responses you should follow: ");
            let j = join_strings(&self.examples, ", ");
            r.append(j.as_str());
        }
        proof {
            assert(r@ =~= prompt_head(p) + motto_part(p) + traits_part(p) + interests_part(p)
                + emotes_part(p) + examples_part(p));
        }
        r.append(
            "\nAlways stay in character and respond as this personality would. Use the provided emotes and emojis frequently to express yourself. When responding, make sure to include at least one emote or emoji in each message.",
        );
        proof {
            assert(r@ =~= spec_system_prompt(p));
        }
        r
    }
}

/// The built-in profile names, matched case-insensitively.
pub open spec fn is_builtin_name(lower: Seq<char>) -> bool {
    lower == "helpful"@ || lower == "friendly"@ || lower == "expert"@
}

/// One emote category of a built-in profile.
fn emote_group(name: &str, a: &str, b: &str) -> (r: (String, Vec<String>))
    ensures
        r.0@ == name@,
        strings_view(r.1@) =~= seq![a@, b@],
{
    let mut v: Vec<String> = Vec::new();
    v.push(a.to_owned());
    v.push(b.to_owned());
    proof {
        assert(strings_view(v@) =~= seq![a@, b@]);
    }
    (name.to_owned(), v)
}

/// Looks a name up among the built-in profiles, case ignored: the helpful
/// assistant, the friendly companion and the expert advisor; anything
/// else is left to file loading.
pub fn builtin_profile(name: &str) -> (r: Option<PersonalityProfile>)
    ensures
        r is Some <==> is_builtin_name(crate::text::lower_of(name@)),
        match r {
            Some(p) => {
                &&& (crate::text::lower_of(name@) == "helpful"@ ==> p@.name
                    == "Helpful Assistant"@ && p@.description == Some("a helpful AI assistant"@))
                &&& (crate::text::lower_of(name@) == "friendly"@ ==> p@.name
                    == "Friendly Companion"@ && p@.description == Some(
                    "a friendly and casual companion"@,
                ))
                &&& (crate::text::lower_of(name@) == "expert"@ ==> p@.name == "Expert Advisor"@
                    && p@.description == Some("a knowledgeable expert advisor"@))
                &&& p@.emotes.len() == 3
                &&& p@.examples.len() == 3
            },
            None => true,
        },
{
    proof {
        reveal_strlit("helpful");
        reveal_strlit("friendly");
        reveal_strlit("expert");
        assert("helpful"@.len() == 7 && "friendly"@.len() == 8 && "expert"@.len() == 6);
        assert("helpful"@ != "friendly"@ && "helpful"@ != "expert"@ && "friendly"@ != "expert"@);
    }
    let l = crate::text::lowercase(name);
    if crate::memory::substr_eq(l.as_str(), "helpful") {
        let mut emotes: Vec<(String, Vec<String>)> = Vec::new();
        emotes.push(emote_group("default", "*types helpfully*", "*considers the question*"));
        emotes.push(emote_group("teaching", "*explains patiently*", "*demonstrates solution*"));
        emotes.push(emote_group("problem_solving", "*analyzes carefully*", "*solves problem*"));
        let mut examples: Vec<String> = Vec::new();
        examples.push("Let me help you with that".to_owned());
        examples.push("I'll guide you through this".to_owned());
        examples.push("Here's how we can solve it".to_owned());
        let prof = PersonalityProfile {
            name: "Helpful Assistant".to_owned(),
            description: Some("a helpful AI assistant".to_owned()),
            style: Some("professional and friendly".to_owned()),
            motto: Some("Always here to help".to_owned()),
            expertise: None,
            traits: Vec::new(),
            interests: Vec::new(),
            emoji: None,
            emotes,
            examples,
            example_tweets: Vec::new(),
            extra: Vec::new(),
        };
        Some(prof)
    } else if crate::memory::substr_eq(l.as_str(), "friendly") {
        let mut emotes: Vec<(String, Vec<String>)> = Vec::new();
        emotes.push(emote_group("default", "*smiles warmly*", "*nods encouragingly*"));
        emotes.push(emote_group("teaching", "*shares enthusiastically*", "*explains cheerfully*"));
        emotes.push(emote_group("problem_solving", "*thinks creatively*", "*helps eagerly*"));
        let mut examples: Vec<String> = Vec::new();
        examples.push("I'd love to help with that!".to_owned());
        examples.push("Let's figure this out together".to_owned());
        examples.push("That's a great question!".to_owned());
        Some(
            PersonalityProfile {
                name: "Friendly Companion".to_owned(),
                description: Some("a friendly and casual companion".to_owned()),
                style: Some("casual and warm".to_owned()),
                motto: Some("Let's chat and have fun!".to_owned()),
                expertise: None,
                traits: Vec::new(),
                interests: Vec::new(),
                emoji: None,
                emotes,
                examples,
                example_tweets: Vec::new(),
                extra: Vec::new(),
            },
        )
    } else if crate::memory::substr_eq(l.as_str(), "expert") {
        let mut emotes: Vec<(String, Vec<String>)> = Vec::new();
        emotes.push(emote_group("default", "*analyzes thoroughly*", "*considers expertly*"));
        emotes.push(emote_group("teaching", "*explains in detail*", "*shares expertise*"));
        emotes.push(
            emote_group("problem_solving", "*applies expert knowledge*", "*solves methodically*"),
        );
        let mut examples: Vec<String> = Vec::new();
        examples.push("Let me provide a detailed analysis".to_owned());
        examples.push("Here's my expert perspective".to_owned());
        examples.push("Based on my expertise".to_owned());
        Some(
            PersonalityProfile {
                name: "Expert Advisor".to_owned(),
                description: Some("a knowledgeable expert advisor".to_owned()),
                style: Some("professional and detailed".to_owned()),
                motto: Some("Knowledge is power".to_owned()),
                expertise: None,
                traits: Vec::new(),
                interests: Vec::new(),
                emoji: None,
                emotes,
                examples,
                example_tweets: Vec::new(),
                extra: Vec::new(),
            },
        )
    } else {
        None
    }
}

} // verus!
