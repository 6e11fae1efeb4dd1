//! Nutrition lookup helpers: client configuration, the cuisine-aware
//! search parameters of the recipe API, the fixed recipe-breakdown table,
//! and integer word-overlap similarity for picking the best match.  The
//! HTTP calls themselves live outside the verified library.

use vstd::prelude::*;

use crate::chunker::{spec_words, split_words};
use crate::memory::strings_view;
use crate::text::{chars_vec, contains_chars, contains_seq, lower_of, lowercase};


verus! {

/// API keys of the two nutrition backends.
pub struct FoodConfig {
    pub usda_api_key: String,
    pub spoonacular_api_key: String,
}

impl FoodConfig {
    /// A configuration from two keys.
    pub fn new(usda_api_key: String, spoonacular_api_key: String) -> (r: Self)
        ensures
            r.usda_api_key@ == usda_api_key@,
            r.spoonacular_api_key@ == spoonacular_api_key@,
    {
        FoodConfig { usda_api_key, spoonacular_api_key }
    }
}

/// The recipe-search client: its key and fixed endpoint.
pub struct SpoonacularClient {
    api_key: String,
    base_url: String,
}

impl SpoonacularClient {
    /// The key requests are signed with.
    pub closed spec fn key(&self) -> Seq<char> {
        self.api_key@
    }

    /// The endpoint requests go to.
    pub closed spec fn base(&self) -> Seq<char> {
        self.base_url@
    }

    /// A client for the fixed recipe API endpoint.
    pub fn new(api_key: String) -> (r: Self)
        ensures
            r.key() == api_key@,
            r.base() == "https://api.spoonacular.com"@,
    {
        SpoonacularClient { api_key, base_url: "https://api.spoonacular.com".to_owned() }
    }

    /// The endpoint, for the caller that owns the HTTP client.
    pub fn base_url(&self) -> (r: &String)
        ensures
            r@ == self.base(),
    {
        &self.base_url
    }

    /// The key, for the caller that owns the HTTP client.
    pub fn api_key(&self) -> (r: &String)
        ensures
            r@ == self.key(),
    {
        &self.api_key
    }
}

/// The nutrient-database client: its key and fixed endpoint.
pub struct UsdaClient {
    api_key: String,
    base_url: String,
}

impl UsdaClient {
    /// The key requests are signed with.
    pub closed spec fn key(&self) -> Seq<char> {
        self.api_key@
    }

    /// The endpoint requests go to.
    pub closed spec fn base(&self) -> Seq<char> {
        self.base_url@
    }

    /// A client for the fixed nutrient-database endpoint, keyed from the
    /// shared configuration.
    pub fn new(config: FoodConfig) -> (r: Self)
        ensures
            r.key() == config.usda_api_key@,
            r.base() == "https://api.nal.usda.gov/fdc/v1"@,
    {
        UsdaClient {
            api_key: config.usda_api_key,
            base_url: "https://api.nal.usda.gov/fdc/v1".to_owned(),
        }
    }

    /// The endpoint, for the caller that owns the HTTP client.
    pub fn base_url(&self) -> (r: &String)
        ensures
            r@ == self.base(),
    {
        &self.base_url
    }

    /// The key, for the caller that owns the HTTP client.
    pub fn api_key(&self) -> (r: &String)
        ensures
            r@ == self.key(),
    {
        &self.api_key
    }
}

/// The fixed breakdown table: the components looked up for a complex
/// dish.  The first dish the query mentions wins.
pub open spec fn spec_recipe_components(q: Seq<char>) -> Option<(Seq<char>, Seq<Seq<char>>)> {
    if contains_seq(lower_of(q), "spaghetti carbonara"@) {
        Some(
            (
                "spaghetti carbonara"@,
                seq![
                    "spaghetti pasta"@,
                    "eggs"@,
                    "pecorino cheese"@,
                    "black pepper"@,
                    "pancetta"@,
                ],
            ),
        )
    } else if contains_seq(lower_of(q), "japanese ramen"@) {
        Some(
            (
                "japanese ramen"@,
                seq!["ramen noodles"@, "chicken broth"@, "soy sauce"@, "green onions"@],
            ),
        )
    } else if contains_seq(lower_of(q), "pizza"@) {
        Some(("pizza"@, seq!["pizza dough"@, "tomato sauce"@, "mozzarella cheese"@]))
    } else {
        None
    }
}

/// Looks a query up in the breakdown table, as `spec_recipe_components`
/// describes.
pub fn recipe_components(query: &str) -> (r: Option<(String, Vec<String>)>)
    ensures
        match r {
            Some((dish, comps)) => spec_recipe_components(query@) == Some(
                (dish@, strings_view(comps@)),
            ),
            None => spec_recipe_components(query@) is None,
        },
{
    let l = lowercase(query);
    let lq = chars_vec(l.as_str());
    proof {
        assert(lq@ == lower_of(query@));
    }
    let d1 = chars_vec("spaghetti carbonara");
    if contains_chars(&lq, &d1) {
        let mut comps: Vec<String> = Vec::new();
        comps.push("spaghetti pasta".to_owned());
        comps.push("eggs".to_owned());
        comps.push("pecorino cheese".to_owned());
        comps.push("black pepper".to_owned());
        comps.push("pancetta".to_owned());
        proof {
            assert(strings_view(comps@) =~= seq![
                "spaghetti pasta"@,
                "eggs"@,
                "pecorino cheese"@,
                "black pepper"@,
                "pancetta"@,
            ]);
        }
        return Some(("spaghetti carbonara".to_owned(), comps));
    }
    let d2 = chars_vec("japanese ramen");
    if contains_chars(&lq, &d2) {
        let mut comps: Vec<String> = Vec::new();
        comps.push("ramen noodles".to_owned());
        comps.push("chicken broth".to_owned());
        comps.push("soy sauce".to_owned());
        comps.push("green onions".to_owned());
        proof {
            assert(strings_view(comps@) =~= seq![
                "ramen noodles"@,
                "chicken broth"@,
                "soy sauce"@,
                "green onions"@,
            ]);
        }
        return Some(("japanese ramen".to_owned(), comps));
    }
    let d3 = chars_vec("pizza");
    if contains_chars(&lq, &d3) {
        let mut comps: Vec<String> = Vec::new();
        comps.push("pizza dough".to_owned());
        comps.push("tomato sauce".to_owned());
        comps.push("mozzarella cheese".to_owned());
        proof {
            assert(strings_view(comps@) =~= seq![
                "pizza dough"@,
                "tomato sauce"@,
                "mozzarella cheese"@,
            ]);
        }
        return Some(("pizza".to_owned(), comps));
    }
    None
}

/// The fixed query parameters every recipe search starts from.
pub open spec fn base_params(key: Seq<char>) -> Seq<(Seq<char>, Seq<char>)> {
    seq![
        ("apiKey"@, key),
        ("addRecipeInformation"@, "true"@),
        ("addRecipeNutrition"@, "true"@),
        ("fillIngredients"@, "true"@),
        ("instructionsRequired"@, "true"@),
        ("number"@, "1"@),
    ]
}

/// The cuisine-aware middle of the parameter list: a cuisine hint and the
/// query, rewritten for known regional dishes.
pub open spec fn cuisine_params(q: Seq<char>) -> Seq<(Seq<char>, Seq<char>)> {
    let lq = lower_of(q);
    if contains_seq(lq, "indonesian"@) || contains_seq(lq, "nasi"@) || contains_seq(lq, "mie"@) {
        seq![("cuisine"@, "asian"@)] + (if contains_seq(lq, "fried rice"@) || contains_seq(
            lq,
            "nasi goreng"@,
        ) {
            seq![("query"@, "nasi goreng indonesian fried rice"@)]
        } else {
            seq![("query"@, "indonesian "@ + q)]
        })
    } else if contains_seq(lq, "japanese"@) {
        seq![("cuisine"@, "japanese"@), ("query"@, q)]
    } else if contains_seq(lq, "italian"@) {
        seq![("cuisine"@, "italian"@), ("query"@, q)]
    } else if contains_seq(lq, "indian"@) {
        seq![("cuisine"@, "indian"@), ("query"@, q)]
    } else if contains_seq(lq, "thai"@) {
        seq![("cuisine"@, "thai"@), ("query"@, q)]
    } else if contains_seq(lq, "chinese"@) {
        seq![("cuisine"@, "chinese"@), ("query"@, q)]
    } else {
        seq![("query"@, q)]
    }
}

/// The ranking parameters every recipe search ends with.
pub open spec fn sort_params() -> Seq<(Seq<char>, Seq<char>)> {
    seq![("sort"@, "popularity"@), ("sortDirection"@, "desc"@)]
}

/// The whole parameter list of a recipe search.
pub open spec fn spec_search_params(key: Seq<char>, q: Seq<char>) -> Seq<(Seq<char>, Seq<char>)> {
    base_params(key) + cuisine_params(q) + sort_params()
}

impl SpoonacularClient {
    /// Builds the cuisine-aware query parameters of a recipe search, as
    /// `spec_search_params` describes.
    pub fn build_search_params(&self, query: &str) -> (r: Vec<(String, String)>)
        ensures
            crate::insights::pairs_view(r@) == spec_search_params(self.key(), query@),
    {
        let mut r: Vec<(String, String)> = Vec::new();
        r.push(("apiKey".to_owned(), self.api_key.clone()));
        r.push(("addRecipeInformation".to_owned(), "true".to_owned()));
        r.push(("addRecipeNutrition".to_owned(), "true".to_owned()));
        r.push(("fillIngredients".to_owned(), "true".to_owned()));
        r.push(("instructionsRequired".to_owned(), "true".to_owned()));
        r.push(("number".to_owned(), "1".to_owned()));
        let l = lowercase(query);
        let lq = chars_vec(l.as_str());
        let c_indonesian = contains_chars(&lq, &chars_vec("indonesian"));
        let c_nasi = contains_chars(&lq, &chars_vec("nasi"));
        let c_mie = contains_chars(&lq, &chars_vec("mie"));
        if c_indonesian || c_nasi || c_mie {
            r.push(("cuisine".to_owned(), "asian".to_owned()));
            let c_fried = contains_chars(&lq, &chars_vec("fried rice"));
            let c_goreng = contains_chars(&lq, &chars_vec("nasi goreng"));
            if c_fried || c_goreng {
                r.push(("query".to_owned(), "nasi goreng indonesian fried rice".to_owned()));
            } else {
                let mut rewritten = String::new();
                rewritten.append("indonesian ");
                rewritten.append(query);
                r.push(("query".to_owned(), rewritten));
            }
        } else if contains_chars(&lq, &chars_vec("japanese")) {
            r.push(("cuisine".to_owned(), "japanese".to_owned()));
            r.push(("query".to_owned(), query.to_owned()));
        } else if contains_chars(&lq, &chars_vec("italian")) {
            r.push(("cuisine".to_owned(), "italian".to_owned()));
            r.push(("query".to_owned(), query.to_owned()));
        } else if contains_chars(&lq, &chars_vec("indian")) {
            r.push(("cuisine".to_owned(), "indian".to_owned()));
            r.push(("query".to_owned(), query.to_owned()));
        } else if contains_chars(&lq, &chars_vec("thai")) {
            r.push(("cuisine".to_owned(), "thai".to_owned()));
            r.push(("query".to_owned(), query.to_owned()));
        } else if contains_chars(&lq, &chars_vec("chinese")) {
            r.push(("cuisine".to_owned(), "chinese".to_owned()));
            r.push(("query".to_owned(), query.to_owned()));
        } else {
            r.push(("query".to_owned(), query.to_owned()));
        }
        r.push(("sort".to_owned(), "popularity".to_owned()));
        r.push(("sortDirection".to_owned(), "desc".to_owned()));
        proof {
            assert(crate::insights::pairs_view(r@) =~= spec_search_params(self.key(), query@));
        }
        r
    }
}

/// How many words of the first list occur in the second.
pub open spec fn spec_word_matches(ws1: Seq<Seq<char>>, ws2: Seq<Seq<char>>) -> int
    decreases ws1.len(),
{
    if ws1.len() == 0 {
        0int
    } else {
        spec_word_matches(ws1.drop_last(), ws2) + if ws2.contains(ws1.last()) {
            1int
        } else {
            0int
        }
    }
}

/// The overlap similarity of two texts as a fraction: matching lowered
/// words of the first within the second, over the larger word count.
pub open spec fn spec_similarity(s1: Seq<char>, s2: Seq<char>) -> (int, int) {
    let w1 = spec_words(lower_of(s1));
    let w2 = spec_words(lower_of(s2));
    (
        spec_word_matches(w1, w2),
        if w1.len() >= w2.len() {
            w1.len() as int
        } else {
            w2.len() as int
        },
    )
}

/// Whether one word list contains a word.
fn words_contain(ws: &Vec<Vec<char>>, w: &Vec<char>) -> (r: bool)
    ensures
        r == crate::chunker::views(ws@).contains(w@),
{
    let mut k: usize = 0;
    while k < ws.len()
        invariant
            k <= ws@.len(),
            forall|j: int| 0 <= j < k ==> (#[trigger] ws@[j])@ != w@,
        decreases ws@.len() - k,
    {
        if crate::text::match_vecs(&ws[k], w) {
            proof {
                assert(crate::chunker::views(ws@)[k as int] == w@);
            }
            return true;
        }
        k = k + 1;
    }
    proof {
        if crate::chunker::views(ws@).contains(w@) {
            let j = choose|j: int|
                0 <= j < crate::chunker::views(ws@).len() && crate::chunker::views(ws@)[j] == w@;
            assert(ws@[j]@ == w@);
        }
    }
    false
}

/// Counts the word overlap of two texts, as `spec_similarity` describes:
/// the matching-word count and the larger word count.
pub fn similarity_counts(s1: &str, s2: &str) -> (r: (usize, usize))
    ensures
        (r.0 as int, r.1 as int) == spec_similarity(s1@, s2@),
{
    let l1 = lowercase(s1);
    let l2 = lowercase(s2);
    let v1 = chars_vec(l1.as_str());
    let v2 = chars_vec(l2.as_str());
    let w1 = split_words(&v1);
    let w2 = split_words(&v2);
    let ghost w1v = crate::chunker::views(w1@);
    let ghost w2v = crate::chunker::views(w2@);
    let mut matches: usize = 0;
    let mut k: usize = 0;
    proof {
        assert(spec_word_matches(w1v.take(0), w2v) == 0);
    }
    while k < w1.len()
        invariant
            k <= w1@.len(),
            w1v == crate::chunker::views(w1@),
            w2v == crate::chunker::views(w2@),
            matches as int == spec_word_matches(w1v.take(k as int), w2v),
            matches <= k,
        decreases w1@.len() - k,
    {
        proof {
            assert(w1v.take(k + 1).drop_last() =~= w1v.take(k as int));
            assert(w1v.take(k + 1).last() == w1@[k as int]@);
        }
        if words_contain(&w2, &w1[k]) {
            matches = matches + 1;
        }
        k = k + 1;
    }
    proof {
        assert(w1v.take(w1v.len() as int) =~= w1v);
        assert(w1v.len() == spec_words(lower_of(s1@)).len());
    }
    let denom = if w1.len() >= w2.len() {
        w1.len()
    } else {
        w2.len()
    };
    (matches, denom)
}

/// Whether the first similarity fraction is strictly larger than the
/// second, compared without division.
pub fn similarity_gt(a: (usize, usize), b: (usize, usize)) -> (r: bool)
    ensures
        r == (a.0 as int * b.1 as int > b.0 as int * a.1 as int),
{
    let x1 = a.0 as u128;
    let y1 = b.1 as u128;
    let x2 = b.0 as u128;
    let y2 = a.1 as u128;
    proof {
        assert(x1 * y1 < 0x1_0000_0000_0000_0000_0000_0000_0000_0000) by (nonlinear_arith)
            requires
                x1 < 0x1_0000_0000_0000_0000 && y1 < 0x1_0000_0000_0000_0000,
        ;
        assert(x2 * y2 < 0x1_0000_0000_0000_0000_0000_0000_0000_0000) by (nonlinear_arith)
            requires
                x2 < 0x1_0000_0000_0000_0000 && y2 < 0x1_0000_0000_0000_0000,
        ;
    }
    x1 * y1 > x2 * y2
}

} // verus!
