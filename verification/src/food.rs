//! Foods: basic ones with a fixed calorie value, and composite ones made of
//! servings of other foods.

use vstd::prelude::*;
use crate::text::{contains, is_substring, lowercase, lowercase_all, texts, to_lowercase};

verus! {

/// A food of the catalog.
pub struct Food {
    pub id: String,
    pub name: String,
    pub keywords: Vec<String>,
    pub calories_per_serving: u32,
    pub is_composite: bool,
    /// `(food id, servings)` pairs; empty for a basic food.
    pub components: Vec<(String, u32)>,
}

/// What a `Food` holds, as mathematical values.
pub struct FoodView {
    pub id: Seq<char>,
    pub name: Seq<char>,
    pub keywords: Seq<Seq<char>>,
    pub calories_per_serving: u32,
    pub is_composite: bool,
    pub components: Seq<(Seq<char>, u32)>,
}

/// The `(food id, servings)` pairs that a vector of components holds.
pub open spec fn portions(v: Seq<(String, u32)>) -> Seq<(Seq<char>, u32)> {
    Seq::new(v.len(), |i: int| (v[i].0@, v[i].1))
}

impl View for Food {
    type V = FoodView;

    open spec fn view(&self) -> FoodView {
        FoodView {
            id: self.id@,
            name: self.name@,
            keywords: texts(self.keywords@),
            calories_per_serving: self.calories_per_serving,
            is_composite: self.is_composite,
            components: portions(self.components@),
        }
    }
}

/// Whether the lowercase query `query` is a substring of one of the lowercase
/// keywords `stored`.
pub open spec fn hits(stored: Seq<Seq<char>>, query: Seq<char>) -> bool {
    exists|j: int| 0 <= j < stored.len() && is_substring(query, #[trigger] stored[j])
}

/// Keyword matching on texts that are already in lowercase: an empty query
/// list matches; otherwise every query must hit (`match_all`) or at least one.
pub open spec fn lowered_match(
    stored: Seq<Seq<char>>,
    queries: Seq<Seq<char>>,
    match_all: bool,
) -> bool {
    if queries.len() == 0 {
        true
    } else if match_all {
        forall|i: int| 0 <= i < queries.len() ==> hits(stored, #[trigger] queries[i])
    } else {
        exists|i: int| 0 <= i < queries.len() && hits(stored, #[trigger] queries[i])
    }
}

/// Case-insensitive keyword matching: both sides are put in lowercase first.
pub open spec fn keywords_match(
    stored: Seq<Seq<char>>,
    queries: Seq<Seq<char>>,
    match_all: bool,
) -> bool {
    lowered_match(lowercase_all(stored), lowercase_all(queries), match_all)
}

/// Whether `query` is a substring of one of `stored`.
pub fn hits_any(stored: &Vec<String>, query: &str) -> (r: bool)
    ensures
        r == hits(texts(stored@), query@),
{
    let mut j: usize = 0;
    while j < stored.len()
        invariant
            j <= stored.len(),
            forall|k: int| 0 <= k < j ==> !is_substring(query@, #[trigger] texts(stored@)[k]),
        decreases stored.len() - j,
    {
        if contains(stored[j].as_str(), query) {
            assert(is_substring(query@, texts(stored@)[j as int]));
            return true;
        }
        j += 1;
    }
    false
}

/// Keyword matching on lowercase texts; see `lowered_match`.
pub fn matches_lowered(stored: &Vec<String>, queries: &Vec<String>, match_all: bool) -> (r: bool)
    ensures
        r == lowered_match(texts(stored@), texts(queries@), match_all),
{
    if queries.len() == 0 {
        return true;
    }
    let ghost s = texts(stored@);
    let ghost q = texts(queries@);
    let mut i: usize = 0;
    while i < queries.len()
        invariant
            i <= queries.len(),
            s == texts(stored@),
            q == texts(queries@),
            forall|k: int| 0 <= k < i ==> hits(s, #[trigger] q[k]) == match_all,
        decreases queries.len() - i,
    {
        let hit = hits_any(stored, queries[i].as_str());
        assert(hit == hits(s, q[i as int]));
        if hit != match_all {
            return hit;
        }
        i += 1;
    }
    match_all
}

/// The lowercase form of each string of `v`.
pub fn lowercase_each(v: &[String]) -> (r: Vec<String>)
    ensures
        texts(r@) == lowercase_all(texts(v@)),
{
    let mut out: Vec<String> = Vec::new();
    let mut i: usize = 0;
    while i < v.len()
        invariant
            i <= v.len(),
            out@.len() == i,
            forall|k: int| 0 <= k < i ==> (#[trigger] out@[k])@ == lowercase(v@[k]@),
        decreases v.len() - i,
    {
        out.push(to_lowercase(v[i].as_str()));
        i += 1;
    }
    assert(texts(out@) =~= lowercase_all(texts(v@)));
    out
}

impl Food {
    /// A basic food with a fixed calorie value.
    pub fn new_basic(id: &str, name: &str, keywords: Vec<String>, calories: u32) -> (r: Food)
        ensures
            r@ == (FoodView {
                id: id@,
                name: name@,
                keywords: texts(keywords@),
                calories_per_serving: calories,
                is_composite: false,
                components: Seq::empty(),
            }),
    {
        let r = Food {
            id: id.to_owned(),
            name: name.to_owned(),
            keywords,
            calories_per_serving: calories,
            is_composite: false,
            components: Vec::new(),
        };
        assert(r@.components =~= Seq::empty());
        r
    }

    /// A composite food; its calorie value is 0 until the catalog resolves it.
    pub fn new_composite(
        id: &str,
        name: &str,
        keywords: Vec<String>,
        components: Vec<(String, u32)>,
    ) -> (r: Food)
        ensures
            r@ == (FoodView {
                id: id@,
                name: name@,
                keywords: texts(keywords@),
                calories_per_serving: 0,
                is_composite: true,
                components: portions(components@),
            }),
    {
        Food {
            id: id.to_owned(),
            name: name.to_owned(),
            keywords,
            calories_per_serving: 0,
            is_composite: true,
            components,
        }
    }

    /// Whether this food's keywords match the search keywords, ignoring case.
    pub fn matches_keywords(&self, search_keywords: &[String], match_all: bool) -> (r: bool)
        ensures
            r == keywords_match(self@.keywords, texts(search_keywords@), match_all),
    {
        if search_keywords.len() == 0 {
            return true;
        }
        let food_keywords = lowercase_each(self.keywords.as_slice());
        let queries = lowercase_each(search_keywords);
        matches_lowered(&food_keywords, &queries, match_all)
    }
}

} // verus!
