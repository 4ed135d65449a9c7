//! The food catalog: foods by id, keyword search, and the single-pass
//! resolution of composite calorie values.

use vstd::prelude::*;
use vstd::arithmetic::div_mod::lemma_add_mod_noop;
use crate::food::{keywords_match, portions, Food, FoodView};
use crate::keys::{distinct, find, lemma_find_at, lemma_find_is_position, lemma_push_distinct};
use crate::text::{str_eq, texts};

verus! {

/// What a sequence of foods holds.
pub open spec fn food_views(v: Seq<Food>) -> Seq<FoodView> {
    Seq::new(v.len(), |i: int| v[i]@)
}

/// What the foods behind a sequence of references hold.
pub open spec fn food_ref_views(v: Seq<&Food>) -> Seq<FoodView> {
    Seq::new(v.len(), |i: int| v[i]@)
}

/// The ids of `foods`, in order.
pub open spec fn ids(foods: Seq<FoodView>) -> Seq<Seq<char>> {
    Seq::new(foods.len(), |i: int| foods[i].id)
}

/// The food with the given id, if the catalog holds one.
pub open spec fn lookup(foods: Seq<FoodView>, id: Seq<char>) -> Option<FoodView> {
    match find(ids(foods), id) {
        Some(i) => Some(foods[i]),
        None => None,
    }
}

/// The catalog after one food is added: a food with the same id is replaced
/// where it stands, a new one goes to the end.
pub open spec fn with_food(foods: Seq<FoodView>, food: FoodView) -> Seq<FoodView> {
    match find(ids(foods), food.id) {
        Some(i) => foods.update(i, food),
        None => foods.push(food),
    }
}

/// The catalog after the foods of `batch` are added one by one, first to last.
pub open spec fn with_foods(foods: Seq<FoodView>, batch: Seq<FoodView>) -> Seq<FoodView>
    decreases batch.len(),
{
    if batch.len() == 0 {
        foods
    } else {
        with_food(with_foods(foods, batch.drop_last()), batch.last())
    }
}

/// The calorie value stored for `id`; 0 where the catalog has no such food.
pub open spec fn calories_of(foods: Seq<FoodView>, id: Seq<char>) -> int {
    match lookup(foods, id) {
        Some(f) => f.calories_per_serving as int,
        None => 0,
    }
}

/// The sum, over `(id, servings)` pairs, of the stored calorie value of `id`
/// times `servings`.
pub open spec fn portions_total(items: Seq<(Seq<char>, u32)>, foods: Seq<FoodView>) -> int
    decreases items.len(),
{
    if items.len() == 0 {
        0
    } else {
        portions_total(items.drop_last(), foods) + calories_of(foods, items.last().0)
            * items.last().1
    }
}

/// A total as 32-bit arithmetic holds it: modulo 2^32.
pub open spec fn wrapped(total: int) -> u32 {
    (total % 0x1_0000_0000) as u32
}

/// The calorie value that one resolution pass gives `food`: a basic food keeps
/// its own, a composite food gets the total of its components as the catalog
/// stores them now.
pub open spec fn resolved_calories(food: FoodView, foods: Seq<FoodView>) -> u32 {
    if food.is_composite {
        wrapped(portions_total(food.components, foods))
    } else {
        food.calories_per_serving
    }
}

/// `food` with the calorie value that one resolution pass gives it.
pub open spec fn resolved_food(food: FoodView, foods: Seq<FoodView>) -> FoodView {
    FoodView { calories_per_serving: resolved_calories(food, foods), ..food }
}

/// The catalog after one resolution pass: every food is resolved against the
/// catalog as it was before the pass.
pub open spec fn resolved(foods: Seq<FoodView>) -> Seq<FoodView> {
    Seq::new(foods.len(), |i: int| resolved_food(foods[i], foods))
}

/// The foods of the catalog that match the search keywords, in catalog order.
pub open spec fn search(foods: Seq<FoodView>, keywords: Seq<Seq<char>>, match_all: bool) -> Seq<
    FoodView,
> {
    foods.filter(|f: FoodView| keywords_match(f.keywords, keywords, match_all))
}

/// The food catalog. No two of its foods have the same id.
pub struct FoodDatabase {
    foods: Vec<Food>,
}

impl View for FoodDatabase {
    type V = Seq<FoodView>;

    closed spec fn view(&self) -> Seq<FoodView> {
        food_views(self.foods@)
    }
}

impl FoodDatabase {
    #[verifier::type_invariant]
    spec fn ids_distinct(self) -> bool {
        distinct(ids(food_views(self.foods@)))
    }

    /// An empty catalog.
    pub fn new() -> (r: FoodDatabase)
        ensures
            r@ == Seq::<FoodView>::empty(),
    {
        let r = FoodDatabase { foods: Vec::new() };
        assert(r@ =~= Seq::<FoodView>::empty());
        r
    }

    /// The foods of the catalog, in catalog order.
    pub fn all(&self) -> (r: &Vec<Food>)
        ensures
            food_views(r@) == self@,
            distinct(ids(self@)),
    {
        proof {
            use_type_invariant(self);
        }
        &self.foods
    }

    /// The position of the food with the given id.
    fn position(&self, id: &str) -> (r: Option<usize>)
        ensures
            match r {
                Some(i) => find(ids(self@), id@) == Some(i as int) && i < self@.len(),
                None => find(ids(self@), id@) is None,
            },
    {
        proof {
            use_type_invariant(self);
        }
        let mut i: usize = 0;
        while i < self.foods.len()
            invariant
                i <= self.foods.len(),
                distinct(ids(self@)),
                forall|k: int| 0 <= k < i ==> #[trigger] ids(self@)[k] != id@,
            decreases self.foods.len() - i,
        {
            if str_eq(self.foods[i].id.as_str(), id) {
                proof {
                    lemma_find_at(ids(self@), id@, i as int);
                }
                return Some(i);
            }
            i += 1;
        }
        None
    }

    /// Adds a food; one with the same id is replaced without notice.
    pub fn add_food(&mut self, food: Food)
        ensures
            final(self)@ == with_food(old(self)@, food@),
    {
        proof {
            use_type_invariant(&*self);
        }
        match self.position(food.id.as_str()) {
            Some(i) => {
                let mut foods: Vec<Food> = Vec::new();
                std::mem::swap(&mut self.foods, &mut foods);
                foods.set(i, food);
                assert(ids(food_views(foods@)) =~= ids(old(self)@));
                assert(food_views(foods@) =~= old(self)@.update(i as int, food@));
                self.foods = foods;
            },
            None => {
                proof {
                    lemma_find_is_position(ids(old(self)@), food@.id);
                    lemma_push_distinct(ids(old(self)@), food@.id);
                }
                let mut foods: Vec<Food> = Vec::new();
                std::mem::swap(&mut self.foods, &mut foods);
                foods.push(food);
                assert(ids(food_views(foods@)) =~= ids(old(self)@).push(food@.id));
                assert(food_views(foods@) =~= old(self)@.push(food@));
                self.foods = foods;
            },
        }
    }

    /// The food with the given id.
    pub fn get_food(&self, id: &str) -> (r: Option<&Food>)
        ensures
            match r {
                Some(f) => lookup(self@, id@) == Some(f@),
                None => lookup(self@, id@) is None,
            },
    {
        match self.position(id) {
            Some(i) => Some(&self.foods[i]),
            None => None,
        }
    }

    /// The foods whose keywords match the search keywords, in catalog order.
    pub fn get_foods_by_keywords(&self, keywords: &[String], match_all: bool) -> (r: Vec<&Food>)
        ensures
            food_ref_views(r@) == search(self@, texts(keywords@), match_all),
    {
        let ghost wanted = |f: FoodView| keywords_match(f.keywords, texts(keywords@), match_all);
        let mut found: Vec<&Food> = Vec::new();
        let mut i: usize = 0;
        assert(self@.take(0) =~= Seq::<FoodView>::empty());
        assert(food_ref_views(found@) =~= self@.take(0).filter(wanted)) by {
            reveal(Seq::filter);
        }
        while i < self.foods.len()
            invariant
                i <= self.foods.len(),
                wanted == |f: FoodView| keywords_match(f.keywords, texts(keywords@), match_all),
                food_ref_views(found@) == self@.take(i as int).filter(wanted),
            decreases self.foods.len() - i,
        {
            let food = &self.foods[i];
            proof {
                self@.lemma_take_succ_push(i as int);
                self@.take(i as int).lemma_filter_push(self@[i as int], wanted);
            }
            if food.matches_keywords(keywords, match_all) {
                let ghost before = food_ref_views(found@);
                found.push(food);
                assert(food_ref_views(found@) =~= before.push(food@));
            }
            i += 1;
        }
        assert(self@.take(self@.len() as int) =~= self@);
        found
    }

    /// The total of `items` against the calorie values that the catalog
    /// stores now; an id that the catalog lacks counts as 0.
    pub fn total_calories(&self, items: &Vec<(String, u32)>) -> (r: u32)
        ensures
            r == wrapped(portions_total(portions(items@), self@)),
    {
        let ghost all = portions(items@);
        let mut total: u32 = 0;
        let mut i: usize = 0;
        assert(all.take(0) =~= Seq::<(Seq<char>, u32)>::empty());
        while i < items.len()
            invariant
                i <= items.len(),
                all == portions(items@),
                total == wrapped(portions_total(all.take(i as int), self@)),
            decreases items.len() - i,
        {
            let servings = items[i].1;
            let calories = match self.get_food(items[i].0.as_str()) {
                Some(component) => component.calories_per_serving,
                None => 0,
            };
            proof {
                let before = portions_total(all.take(i as int), self@);
                let step = calories_of(self@, all[i as int].0) * all[i as int].1;
                assert(all.take(i + 1).drop_last() =~= all.take(i as int));
                assert(portions_total(all.take(i + 1), self@) == before + step);
                assert(step == calories * servings);
                lemma_add_mod_noop(before, step, 0x1_0000_0000);
            }
            total = total.wrapping_add(calories.wrapping_mul(servings));
            i += 1;
        }
        assert(all.take(items@.len() as int) =~= all);
        total
    }

    /// One resolution pass: every composite food gets the total of its
    /// components, each at the calorie value it had before the pass. A
    /// composite of composites can so be one pass behind.
    pub fn calculate_composite_calories(&mut self)
        ensures
            final(self)@ == resolved(old(self)@),
    {
        proof {
            use_type_invariant(&*self);
        }
        let count = self.foods.len();
        let mut updates: Vec<u32> = Vec::new();
        let mut i: usize = 0;
        while i < count
            invariant
                i <= count,
                count == self@.len(),
                updates@.len() == i,
                forall|k: int|
                    0 <= k < i ==> #[trigger] updates@[k] == resolved_calories(self@[k], self@),
            decreases count - i,
        {
            let food = &self.foods[i];
            let value = if food.is_composite {
                self.total_calories(&food.components)
            } else {
                food.calories_per_serving
            };
            updates.push(value);
            i += 1;
        }
        let mut foods: Vec<Food> = Vec::new();
        std::mem::swap(&mut self.foods, &mut foods);
        let mut i: usize = 0;
        while i < count
            invariant
                i <= count,
                count == foods@.len(),
                count == updates@.len(),
                count == old(self)@.len(),
                forall|k: int|
                    0 <= k < count ==> #[trigger] updates@[k] == resolved_calories(
                        old(self)@[k],
                        old(self)@,
                    ),
                forall|k: int|
                    0 <= k < i ==> (#[trigger] foods@[k])@ == resolved_food(
                        old(self)@[k],
                        old(self)@,
                    ),
                forall|k: int| i <= k < count ==> (#[trigger] foods@[k])@ == old(self)@[k],
            decreases count - i,
        {
            foods[i].calories_per_serving = updates[i];
            i += 1;
        }
        assert(food_views(foods@) =~= resolved(old(self)@));
        assert(ids(food_views(foods@)) =~= ids(old(self)@));
        self.foods = foods;
    }

    /// Adds the foods of a batch one by one, then runs one resolution pass.
    pub fn add_foods(&mut self, batch: Vec<Food>)
        ensures
            final(self)@ == resolved(with_foods(old(self)@, food_views(batch@))),
    {
        let ghost all = food_views(batch@);
        assert(all.take(0) =~= Seq::<FoodView>::empty());
        for food in it: batch
            invariant
                it.seq() == batch@,
                all == food_views(batch@),
                self@ == with_foods(old(self)@, all.take(it.index() as int)),
        {
            proof {
                assert(food@ == all[it.index() as int]);
                assert(all.take(it.index() + 1).drop_last() =~= all.take(it.index() as int));
            }
            self.add_food(food);
        }
        assert(all.take(all.len() as int) =~= all);
        self.calculate_composite_calories();
    }

    /// Takes a batch of foods from `source`, adds each and runs one resolution
    /// pass, as `add_foods` does with the batch that came.
    pub fn add_foods_from_source(&mut self, source: &dyn FoodDataSource)
        ensures
            exists|batch: Seq<FoodView>|
                final(self)@ == resolved(#[trigger] with_foods(old(self)@, batch)),
    {
        let new_foods = source.fetch_food_data();
        let ghost batch = food_views(new_foods@);
        self.add_foods(new_foods);
        assert(self@ == resolved(with_foods(old(self)@, batch)));
    }
}

/// A basic food, as `Food::new_basic` makes it.
pub open spec fn basic_food(
    id: Seq<char>,
    name: Seq<char>,
    keywords: Seq<Seq<char>>,
    calories: u32,
) -> FoodView {
    FoodView {
        id,
        name,
        keywords,
        calories_per_serving: calories,
        is_composite: false,
        components: Seq::empty(),
    }
}

/// An unresolved composite food, as `Food::new_composite` makes it.
pub open spec fn composite_food(
    id: Seq<char>,
    name: Seq<char>,
    keywords: Seq<Seq<char>>,
    components: Seq<(Seq<char>, u32)>,
) -> FoodView {
    FoodView { id, name, keywords, calories_per_serving: 0, is_composite: true, components }
}

/// The foods that a catalog starts with where none are stored: twelve basic
/// foods, then four composite foods made of them.
pub open spec fn sample_foods() -> Seq<FoodView> {
    seq![
        basic_food("chicken"@, "Chicken Breast"@, seq!["chicken"@, "meat"@, "protein"@], 165),
        basic_food("apple"@, "Apple"@, seq!["apple"@, "fruit"@], 95),
        basic_food("pb"@, "Peanut Butter"@, seq!["peanut"@, "butter"@], 190),
        basic_food("rice"@, "White Rice"@, seq!["rice"@, "grain"@], 206),
        basic_food("butter"@, "Butter"@, seq!["butter"@, "fat"@], 102),
        basic_food("bread"@, "Bread Slice"@, seq!["bread"@, "grain"@], 80),
        basic_food("egg"@, "Egg"@, seq!["egg"@, "protein"@], 78),
        basic_food("banana"@, "Banana"@, seq!["banana"@, "fruit"@], 105),
        basic_food("seeds"@, "seeds"@, seq!["seed"@, "seeds"@], 300),
        basic_food("milk"@, "Whole Milk"@, seq!["milk"@, "dairy"@], 149),
        basic_food("sprout"@, "sprouts"@, seq!["sprout"@, "sprouts"@], 250),
        basic_food("cheese"@, "Cheddar Cheese"@, seq!["cheese"@, "dairy"@], 113),
        composite_food("pb_sandwich"@, "Peanut Butter Sandwich"@, seq!["sandwich"@, "peanut"@], seq![("bread"@, 2u32), ("pb"@, 1u32)]),
        composite_food("csalad"@, "chicken salad"@, seq!["salad"@, "chicken"@, "greens"@], seq![("chicken"@, 2u32), ("sprout"@, 1u32)]),
        composite_food("vada"@, "medhu vada"@, seq!["medhu"@, "vada"@], seq![("rice"@, 2u32), ("sprout"@, 2u32)]),
        composite_food("bshake"@, "banana shake"@, seq!["shake"@, "banana"@, "bananashake"@], seq![("banana"@, 2u32), ("milk"@, 2u32)]),
    ]
}

/// Owned copies of the words.
fn words(list: &[&str]) -> (r: Vec<String>)
    ensures
        r@.len() == list@.len(),
        forall|i: int| 0 <= i < list@.len() ==> (#[trigger] r@[i])@ == list@[i]@,
{
    let mut out: Vec<String> = Vec::new();
    let mut i: usize = 0;
    while i < list.len()
        invariant
            i <= list.len(),
            out@.len() == i,
            forall|k: int| 0 <= k < i ==> (#[trigger] out@[k])@ == list@[k]@,
        decreases list.len() - i,
    {
        out.push(list[i].to_owned());
        i += 1;
    }
    out
}

/// Two components.
fn two_portions(first: &str, first_servings: u32, second: &str, second_servings: u32) -> (r: Vec<
    (String, u32),
>)
    ensures
        portions(r@) == seq![(first@, first_servings), (second@, second_servings)],
{
    let mut out: Vec<(String, u32)> = Vec::new();
    out.push((first.to_owned(), first_servings));
    out.push((second.to_owned(), second_servings));
    assert(portions(out@) =~= seq![(first@, first_servings), (second@, second_servings)]);
    out
}

impl FoodDatabase {
    /// Adds the sample foods and runs one resolution pass.
    pub fn create_sample_data(&mut self)
        ensures
            final(self)@ == resolved(with_foods(old(self)@, sample_foods())),
    {
        let mut batch: Vec<Food> = Vec::new();
        batch.push(Food::new_basic("chicken", "Chicken Breast", words(&["chicken", "meat", "protein"]), 165));
        batch.push(Food::new_basic("apple", "Apple", words(&["apple", "fruit"]), 95));
        batch.push(Food::new_basic("pb", "Peanut Butter", words(&["peanut", "butter"]), 190));
        batch.push(Food::new_basic("rice", "White Rice", words(&["rice", "grain"]), 206));
        batch.push(Food::new_basic("butter", "Butter", words(&["butter", "fat"]), 102));
        batch.push(Food::new_basic("bread", "Bread Slice", words(&["bread", "grain"]), 80));
        batch.push(Food::new_basic("egg", "Egg", words(&["egg", "protein"]), 78));
        batch.push(Food::new_basic("banana", "Banana", words(&["banana", "fruit"]), 105));
        batch.push(Food::new_basic("seeds", "seeds", words(&["seed", "seeds"]), 300));
        batch.push(Food::new_basic("milk", "Whole Milk", words(&["milk", "dairy"]), 149));
        batch.push(Food::new_basic("sprout", "sprouts", words(&["sprout", "sprouts"]), 250));
        batch.push(Food::new_basic("cheese", "Cheddar Cheese", words(&["cheese", "dairy"]), 113));
        batch.push(
            Food::new_composite("pb_sandwich", "Peanut Butter Sandwich", words(&["sandwich", "peanut"]), two_portions("bread", 2, "pb", 1)),
        );
        batch.push(
            Food::new_composite("csalad", "chicken salad", words(&["salad", "chicken", "greens"]), two_portions("chicken", 2, "sprout", 1)),
        );
        batch.push(
            Food::new_composite("vada", "medhu vada", words(&["medhu", "vada"]), two_portions("rice", 2, "sprout", 2)),
        );
        batch.push(
            Food::new_composite("bshake", "banana shake", words(&["shake", "banana", "bananashake"]), two_portions("banana", 2, "milk", 2)),
        );
        proof {
            let made = food_views(batch@);
            let wanted = sample_foods();
            assert(made.len() == wanted.len());
            assert forall|i: int| 0 <= i < made.len() implies made[i] == wanted[i] by {
                assert(made[i].keywords =~= wanted[i].keywords);
                assert(made[i].components =~= wanted[i].components);
            }
            assert(made =~= wanted);
        }
        self.add_foods(batch);
    }
}

/// A source of foods to take into a catalog: a file, a remote service, a
/// fixture. Nothing is asked of what it produces.
pub trait FoodDataSource {
    fn fetch_food_data(&self) -> Vec<Food>;
}

/// A stand-in for a remote source: it produces one sample basic food.
pub struct DummyWebSource;

/// The sample food of `DummyWebSource`.
pub open spec fn dummy_apple() -> FoodView {
    FoodView {
        id: "dummy_apple"@,
        name: "Dummy Apple"@,
        keywords: seq!["apple"@, "fruit"@],
        calories_per_serving: 90,
        is_composite: false,
        components: Seq::empty(),
    }
}

impl FoodDataSource for DummyWebSource {
    fn fetch_food_data(&self) -> (r: Vec<Food>)
        ensures
            food_views(r@) == seq![dummy_apple()],
    {
        let mut keywords: Vec<String> = Vec::new();
        keywords.push("apple".to_owned());
        keywords.push("fruit".to_owned());
        assert(texts(keywords@) =~= seq!["apple"@, "fruit"@]);
        let mut foods: Vec<Food> = Vec::new();
        foods.push(Food::new_basic("dummy_apple", "Dummy Apple", keywords, 90));
        assert(food_views(foods@) =~= seq![dummy_apple()]);
        foods
    }
}

impl Food {
    /// Resolves this food against `database`: a composite food gets the total
    /// of its components; a basic food is left as it is.
    pub fn calculate_calories(&mut self, database: &FoodDatabase)
        ensures
            final(self)@ == resolved_food(old(self)@, database@),
    {
        if !self.is_composite {
            return ;
        }
        let total = database.total_calories(&self.components);
        self.calories_per_serving = total;
    }
}

} // verus!
