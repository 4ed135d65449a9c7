use yada::catalog::{DummyWebSource, FoodDatabase};
use yada::food::{matches_lowered, Food};

fn words(list: &[&str]) -> Vec<String> {
    list.iter().map(|w| w.to_string()).collect()
}

fn parts(list: &[(&str, u32)]) -> Vec<(String, u32)> {
    list.iter().map(|(id, n)| (id.to_string(), *n)).collect()
}

fn calories(db: &FoodDatabase, id: &str) -> u32 {
    db.get_food(id).expect("food is in the catalog").calories_per_serving
}

fn ids(found: &[&Food]) -> Vec<String> {
    found.iter().map(|f| f.id.clone()).collect()
}

fn sandwich_catalog() -> FoodDatabase {
    let mut db = FoodDatabase::new();
    db.add_food(Food::new_basic("bread", "Bread Slice", words(&["bread", "grain"]), 80));
    db.add_food(Food::new_basic("pb", "Peanut Butter", words(&["peanut", "butter"]), 190));
    db.add_food(Food::new_composite(
        "sandwich",
        "Peanut Butter Sandwich",
        words(&["sandwich", "peanut"]),
        parts(&[("bread", 2), ("pb", 1)]),
    ));
    db
}

#[test]
fn new_catalog_is_empty() {
    let db = FoodDatabase::new();
    assert!(db.all().is_empty());
    assert!(db.get_food("bread").is_none());
}

#[test]
fn new_basic_holds_what_it_was_given() {
    let f = Food::new_basic("egg", "Egg", words(&["egg", "protein"]), 78);
    assert_eq!(f.id, "egg");
    assert_eq!(f.name, "Egg");
    assert_eq!(f.keywords, words(&["egg", "protein"]));
    assert_eq!(f.calories_per_serving, 78);
    assert!(!f.is_composite);
    assert!(f.components.is_empty());
}

#[test]
fn new_composite_starts_at_zero_calories() {
    let f = Food::new_composite("s", "S", words(&["s"]), parts(&[("bread", 2)]));
    assert_eq!(f.id, "s");
    assert_eq!(f.name, "S");
    assert_eq!(f.calories_per_serving, 0);
    assert!(f.is_composite);
    assert_eq!(f.components, parts(&[("bread", 2)]));
}

#[test]
fn sandwich_resolves_to_350() {
    let mut db = sandwich_catalog();
    assert_eq!(calories(&db, "sandwich"), 0);
    db.calculate_composite_calories();
    assert_eq!(calories(&db, "sandwich"), 350);
}

#[test]
fn resolution_keeps_basic_foods() {
    let mut db = sandwich_catalog();
    db.calculate_composite_calories();
    assert_eq!(calories(&db, "bread"), 80);
    assert_eq!(calories(&db, "pb"), 190);
    db.calculate_composite_calories();
    assert_eq!(calories(&db, "bread"), 80);
    assert_eq!(calories(&db, "pb"), 190);
    let bread = db.get_food("bread").unwrap();
    assert_eq!(bread.name, "Bread Slice");
    assert_eq!(bread.keywords, words(&["bread", "grain"]));
    assert!(!bread.is_composite);
}

#[test]
fn composite_of_basic_foods_is_the_weighted_sum() {
    let mut db = FoodDatabase::new();
    db.add_food(Food::new_basic("rice", "White Rice", words(&["rice"]), 206));
    db.add_food(Food::new_basic("sprout", "sprouts", words(&["sprout"]), 250));
    db.add_food(Food::new_composite("vada", "medhu vada", words(&["vada"]), parts(&[("rice", 2), ("sprout", 2)])));
    db.calculate_composite_calories();
    assert_eq!(calories(&db, "vada"), 2 * 206 + 2 * 250);
    // a second pass changes nothing
    db.calculate_composite_calories();
    assert_eq!(calories(&db, "vada"), 912);
}

#[test]
fn chain_is_one_generation_stale_then_settles() {
    let mut db = FoodDatabase::new();
    db.add_food(Food::new_composite("a", "A", words(&["a"]), parts(&[("b", 3)])));
    db.add_food(Food::new_composite("b", "B", words(&["b"]), parts(&[("c", 2)])));
    db.add_food(Food::new_basic("c", "C", words(&["c"]), 100));
    db.calculate_composite_calories();
    assert_eq!(calories(&db, "c"), 100);
    assert_eq!(calories(&db, "b"), 200);
    // computed from the value B had before the pass
    assert_eq!(calories(&db, "a"), 0);
    db.calculate_composite_calories();
    assert_eq!(calories(&db, "b"), 200);
    assert_eq!(calories(&db, "a"), 600);
    db.calculate_composite_calories();
    assert_eq!(calories(&db, "a"), 600);
}

#[test]
fn chain_is_stale_whatever_the_order_of_the_batch() {
    let batch = vec![
        Food::new_basic("c", "C", words(&["c"]), 100),
        Food::new_composite("b", "B", words(&["b"]), parts(&[("c", 2)])),
        Food::new_composite("a", "A", words(&["a"]), parts(&[("b", 3)])),
    ];
    let mut db = FoodDatabase::new();
    db.add_foods(batch);
    assert_eq!(calories(&db, "b"), 200);
    assert_eq!(calories(&db, "a"), 0);
    db.calculate_composite_calories();
    assert_eq!(calories(&db, "a"), 600);
}

#[test]
fn stale_value_follows_a_changed_component() {
    let mut db = sandwich_catalog();
    db.add_food(Food::new_composite("lunch", "Lunch", words(&["lunch"]), parts(&[("sandwich", 2)])));
    db.calculate_composite_calories();
    db.calculate_composite_calories();
    assert_eq!(calories(&db, "lunch"), 700);
    db.add_food(Food::new_basic("bread", "Bread Slice", words(&["bread"]), 100));
    db.calculate_composite_calories();
    assert_eq!(calories(&db, "sandwich"), 390);
    assert_eq!(calories(&db, "lunch"), 700);
    db.calculate_composite_calories();
    assert_eq!(calories(&db, "lunch"), 780);
}

#[test]
fn missing_component_counts_as_zero() {
    let mut db = FoodDatabase::new();
    db.add_food(Food::new_basic("bread", "Bread", words(&["bread"]), 80));
    db.add_food(Food::new_composite("toast", "Toast", words(&["toast"]), parts(&[("bread", 1), ("jam", 4)])));
    db.calculate_composite_calories();
    assert_eq!(calories(&db, "toast"), 80);
}

#[test]
fn composite_without_components_resolves_to_zero() {
    let mut db = FoodDatabase::new();
    let mut air = Food::new_composite("air", "Air", words(&["air"]), Vec::new());
    air.calories_per_serving = 55;
    db.add_food(air);
    db.calculate_composite_calories();
    assert_eq!(calories(&db, "air"), 0);
}

#[test]
fn totals_are_kept_modulo_two_to_the_32() {
    let mut db = FoodDatabase::new();
    db.add_food(Food::new_basic("fuel", "Fuel", words(&["fuel"]), 4_000_000_000));
    db.add_food(Food::new_composite("tank", "Tank", words(&["tank"]), parts(&[("fuel", 2)])));
    db.calculate_composite_calories();
    assert_eq!(calories(&db, "tank"), 3_705_032_704);
    assert_eq!(db.total_calories(&parts(&[("fuel", 1), ("fuel", 1)])), 3_705_032_704);
}

#[test]
fn total_calories_sums_portions() {
    let db = sandwich_catalog();
    assert_eq!(db.total_calories(&parts(&[("bread", 2), ("pb", 1)])), 350);
    assert_eq!(db.total_calories(&parts(&[])), 0);
    assert_eq!(db.total_calories(&parts(&[("nothing", 9)])), 0);
    assert_eq!(db.total_calories(&parts(&[("pb", 0)])), 0);
}

#[test]
fn food_resolves_itself_against_a_catalog() {
    let db = sandwich_catalog();
    let mut meal = Food::new_composite("meal", "Meal", words(&["meal"]), parts(&[("bread", 3), ("pb", 2)]));
    meal.calculate_calories(&db);
    assert_eq!(meal.calories_per_serving, 620);
    let mut plain = Food::new_basic("x", "X", words(&["x"]), 12);
    plain.calculate_calories(&db);
    assert_eq!(plain.calories_per_serving, 12);
}

#[test]
fn add_food_replaces_in_place() {
    let mut db = sandwich_catalog();
    db.add_food(Food::new_basic("bread", "Rye", words(&["rye"]), 70));
    assert_eq!(db.all().len(), 3);
    assert_eq!(ids(&db.all().iter().collect::<Vec<_>>()), words(&["bread", "pb", "sandwich"]));
    let bread = db.get_food("bread").unwrap();
    assert_eq!(bread.name, "Rye");
    assert_eq!(bread.calories_per_serving, 70);
}

#[test]
fn get_food_wants_the_exact_id() {
    let db = sandwich_catalog();
    assert_eq!(db.get_food("pb").unwrap().name, "Peanut Butter");
    assert!(db.get_food("PB").is_none());
    assert!(db.get_food("p").is_none());
    assert!(db.get_food("pbb").is_none());
    assert!(db.get_food("").is_none());
}

fn fruit_catalog() -> FoodDatabase {
    let mut db = FoodDatabase::new();
    db.add_food(Food::new_basic("apple", "Apple", words(&["apple", "fruit"]), 95));
    db.add_food(Food::new_basic("chicken", "Chicken", words(&["chicken", "meat", "protein"]), 165));
    db.add_food(Food::new_basic("banana", "Banana", words(&["banana", "FRUIT"]), 105));
    db.add_food(Food::new_basic("pomelo", "Pomelo", words(&["Grapefruity"]), 40));
    db.add_food(Food::new_basic("water", "Water", Vec::new(), 0));
    db
}

#[test]
fn search_for_fruit_ignores_case_and_takes_substrings() {
    let db = fruit_catalog();
    let found = db.get_foods_by_keywords(&words(&["fruit"]), false);
    assert_eq!(ids(&found), words(&["apple", "banana", "pomelo"]));
    let found = db.get_foods_by_keywords(&words(&["FrUiT"]), true);
    assert_eq!(ids(&found), words(&["apple", "banana", "pomelo"]));
}

#[test]
fn search_with_no_keywords_finds_every_food() {
    let db = fruit_catalog();
    let all = words(&["apple", "chicken", "banana", "pomelo", "water"]);
    assert_eq!(ids(&db.get_foods_by_keywords(&[], false)), all);
    assert_eq!(ids(&db.get_foods_by_keywords(&[], true)), all);
}

#[test]
fn search_all_and_search_any() {
    let db = fruit_catalog();
    let q = words(&["fruit", "apple"]);
    assert_eq!(ids(&db.get_foods_by_keywords(&q, true)), words(&["apple"]));
    assert_eq!(ids(&db.get_foods_by_keywords(&q, false)), words(&["apple", "banana", "pomelo"]));
    let q = words(&["meat", "fruit"]);
    assert!(db.get_foods_by_keywords(&q, true).is_empty());
    assert_eq!(
        ids(&db.get_foods_by_keywords(&q, false)),
        words(&["apple", "chicken", "banana", "pomelo"])
    );
    assert!(db.get_foods_by_keywords(&words(&["fish"]), false).is_empty());
}

#[test]
fn query_must_be_inside_the_keyword_not_around_it() {
    let f = Food::new_basic("apple", "Apple", words(&["apple"]), 95);
    assert!(f.matches_keywords(&words(&["ppl"]), true));
    assert!(f.matches_keywords(&words(&["APPLE"]), true));
    assert!(!f.matches_keywords(&words(&["apples"]), true));
    assert!(!f.matches_keywords(&words(&["apples"]), false));
    // the empty keyword is inside every keyword
    assert!(f.matches_keywords(&words(&[""]), true));
    let bare = Food::new_basic("water", "Water", Vec::new(), 0);
    assert!(!bare.matches_keywords(&words(&[""]), false));
    assert!(bare.matches_keywords(&[], false));
}

#[test]
fn matching_on_lowered_text_is_case_sensitive() {
    let stored = words(&["apple", "fruit"]);
    assert!(matches_lowered(&stored, &words(&["rui"]), true));
    assert!(!matches_lowered(&stored, &words(&["RUI"]), true));
    assert!(matches_lowered(&stored, &words(&["RUI", "app"]), false));
    assert!(!matches_lowered(&stored, &words(&["rui", "APP"]), true));
    assert!(matches_lowered(&stored, &Vec::new(), true));
    assert!(matches_lowered(&stored, &Vec::new(), false));
}

#[test]
fn dummy_source_brings_one_apple() {
    let mut db = sandwich_catalog();
    db.add_foods_from_source(&DummyWebSource);
    let apple = db.get_food("dummy_apple").unwrap();
    assert_eq!(apple.name, "Dummy Apple");
    assert_eq!(apple.keywords, words(&["apple", "fruit"]));
    assert_eq!(apple.calories_per_serving, 90);
    assert!(!apple.is_composite);
    // taking foods in runs a resolution pass
    assert_eq!(calories(&db, "sandwich"), 350);
    assert_eq!(db.all().len(), 4);
}

#[test]
fn add_foods_adds_in_order_and_resolves() {
    let mut db = FoodDatabase::new();
    db.add_foods(vec![
        Food::new_basic("bread", "Bread", words(&["bread"]), 80),
        Food::new_composite("toast", "Toast", words(&["toast"]), parts(&[("bread", 2)])),
        Food::new_basic("bread", "Dark Bread", words(&["bread"]), 90),
    ]);
    assert_eq!(db.all().len(), 2);
    assert_eq!(db.get_food("bread").unwrap().name, "Dark Bread");
    assert_eq!(calories(&db, "toast"), 180);
}

#[test]
fn sample_data_is_sixteen_foods_resolved() {
    let mut db = FoodDatabase::new();
    db.create_sample_data();
    assert_eq!(
        ids(&db.all().iter().collect::<Vec<_>>()),
        words(&[
            "chicken", "apple", "pb", "rice", "butter", "bread", "egg", "banana", "seeds", "milk",
            "sprout", "cheese", "pb_sandwich", "csalad", "vada", "bshake",
        ])
    );
    let expected = [
        ("chicken", 165),
        ("apple", 95),
        ("pb", 190),
        ("rice", 206),
        ("butter", 102),
        ("bread", 80),
        ("egg", 78),
        ("banana", 105),
        ("seeds", 300),
        ("milk", 149),
        ("sprout", 250),
        ("cheese", 113),
        ("pb_sandwich", 350),
        ("csalad", 580),
        ("vada", 912),
        ("bshake", 508),
    ];
    for (id, value) in expected {
        assert_eq!(calories(&db, id), value, "{}", id);
    }
    let chicken = db.get_food("chicken").unwrap();
    assert_eq!(chicken.name, "Chicken Breast");
    assert_eq!(chicken.keywords, words(&["chicken", "meat", "protein"]));
    let shake = db.get_food("bshake").unwrap();
    assert_eq!(shake.name, "banana shake");
    assert_eq!(shake.keywords, words(&["shake", "banana", "bananashake"]));
    assert_eq!(shake.components, parts(&[("banana", 2), ("milk", 2)]));
    assert!(shake.is_composite);
    assert!(!chicken.is_composite);
}

#[test]
fn sample_data_overwrites_foods_of_the_same_id() {
    let mut db = FoodDatabase::new();
    db.add_food(Food::new_basic("bread", "Stale Bread", words(&["old"]), 1));
    db.add_food(Food::new_basic("mine", "Mine", words(&["mine"]), 7));
    db.create_sample_data();
    assert_eq!(db.all().len(), 17);
    assert_eq!(db.get_food("bread").unwrap().name, "Bread Slice");
    assert_eq!(calories(&db, "pb_sandwich"), 350);
    assert_eq!(calories(&db, "mine"), 7);
    assert_eq!(db.all()[0].id, "bread");
}
