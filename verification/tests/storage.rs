use yada::catalog::FoodDatabase;
use yada::food::Food;
use yada::ledger::{DailyLog, FoodEntry};

fn words(list: &[&str]) -> Vec<String> {
    list.iter().map(|w| w.to_string()).collect()
}

fn parts(list: &[(&str, u32)]) -> Vec<(String, u32)> {
    list.iter().map(|(id, n)| (id.to_string(), *n)).collect()
}

fn entry_fields(e: &FoodEntry) -> (String, u32, u64) {
    (e.food_id.clone(), e.servings, e.timestamp)
}

#[test]
fn entry_line_has_three_fields() {
    assert_eq!(FoodEntry::at("bread", 2, 1700000000).to_string(), "bread,2,1700000000");
    assert_eq!(FoodEntry::at("", 0, 0).to_string(), ",0,0");
    assert_eq!(
        FoodEntry::at("pb", u32::MAX, u64::MAX).to_string(),
        "pb,4294967295,18446744073709551615"
    );
    assert_eq!(FoodEntry::at("x", 10, 100).to_string(), "x,10,100");
    assert_eq!(FoodEntry::at("x", 907, 1001).to_string(), "x,907,1001");
}

#[test]
fn entry_reads_back_from_its_line() {
    let e = FoodEntry::from_string("bread,2,1700000000").unwrap();
    assert_eq!(entry_fields(&e), ("bread".to_string(), 2, 1700000000));
    let e = FoodEntry::from_string(&FoodEntry::at("pb", 31, 99).to_string()).unwrap();
    assert_eq!(entry_fields(&e), ("pb".to_string(), 31, 99));
    let e = FoodEntry::from_string("pb,4294967295,18446744073709551615").unwrap();
    assert_eq!(entry_fields(&e), ("pb".to_string(), u32::MAX, u64::MAX));
}

#[test]
fn entry_line_may_have_more_fields() {
    let e = FoodEntry::from_string("bread,2,17,extra,more").unwrap();
    assert_eq!(entry_fields(&e), ("bread".to_string(), 2, 17));
}

#[test]
fn entry_numbers_take_a_plus_and_leading_zeros() {
    let e = FoodEntry::from_string("bread,+2,007").unwrap();
    assert_eq!(entry_fields(&e), ("bread".to_string(), 2, 7));
}

#[test]
fn entry_line_that_does_not_read() {
    assert!(FoodEntry::from_string("").is_none());
    assert!(FoodEntry::from_string("bread").is_none());
    assert!(FoodEntry::from_string("bread,2").is_none());
    assert!(FoodEntry::from_string("bread,two,17").is_none());
    assert!(FoodEntry::from_string("bread,2,").is_none());
    assert!(FoodEntry::from_string("bread,,17").is_none());
    assert!(FoodEntry::from_string("bread,-2,17").is_none());
    assert!(FoodEntry::from_string("bread, 2,17").is_none());
    assert!(FoodEntry::from_string("bread,2,17 ").is_none());
    assert!(FoodEntry::from_string("bread,+,17").is_none());
    assert!(FoodEntry::from_string("bread,++2,17").is_none());
    assert!(FoodEntry::from_string("bread,2_0,17").is_none());
    assert!(FoodEntry::from_string("bread,4294967296,17").is_none());
    assert!(FoodEntry::from_string("bread,2,18446744073709551616").is_none());
    assert!(FoodEntry::from_string("bread,2.0,17").is_none());
}

#[test]
fn basic_food_line() {
    let f = Food::new_basic("apple", "Apple", words(&["apple", "fruit"]), 95);
    assert_eq!(f.to_string(), "basic,apple,Apple,apple|fruit,95");
    let f = Food::new_basic("water", "Water", Vec::new(), 0);
    assert_eq!(f.to_string(), "basic,water,Water,,0");
    let f = Food::new_basic("one", "One", words(&["only"]), 4_000_000_000);
    assert_eq!(f.to_string(), "basic,one,One,only,4000000000");
}

#[test]
fn composite_food_line() {
    let mut f = Food::new_composite(
        "pb_sandwich",
        "Peanut Butter Sandwich",
        words(&["sandwich", "peanut"]),
        parts(&[("bread", 2), ("pb", 1)]),
    );
    f.calories_per_serving = 350;
    assert_eq!(f.to_string(), "composite,pb_sandwich,Peanut Butter Sandwich,sandwich|peanut,bread:2|pb:1");
    let f = Food::new_composite("air", "Air", words(&["a", "b", "c"]), Vec::new());
    assert_eq!(f.to_string(), "composite,air,Air,a|b|c,");
}

#[test]
fn basic_food_reads_back_from_its_line() {
    let f = Food::from_string("basic,apple,Apple,apple|fruit,95").unwrap();
    assert_eq!(f.id, "apple");
    assert_eq!(f.name, "Apple");
    assert_eq!(f.keywords, words(&["apple", "fruit"]));
    assert_eq!(f.calories_per_serving, 95);
    assert!(!f.is_composite);
    assert!(f.components.is_empty());
}

#[test]
fn composite_food_reads_back_unresolved() {
    let f = Food::from_string("composite,s,Sandwich,sandwich|peanut,bread:2|pb:1").unwrap();
    assert_eq!(f.id, "s");
    assert_eq!(f.name, "Sandwich");
    assert_eq!(f.keywords, words(&["sandwich", "peanut"]));
    assert_eq!(f.calories_per_serving, 0);
    assert!(f.is_composite);
    assert_eq!(f.components, parts(&[("bread", 2), ("pb", 1)]));
}

#[test]
fn composite_food_passes_over_components_that_do_not_read() {
    let f = Food::from_string("composite,s,S,k,bread:2|pb|jam:x|:3|egg:4:9|").unwrap();
    assert_eq!(f.components, parts(&[("bread", 2), ("", 3), ("egg", 4)]));
    let f = Food::from_string("composite,s,S,k,").unwrap();
    assert!(f.components.is_empty());
}

#[test]
fn empty_keyword_field_is_one_empty_keyword() {
    let f = Food::from_string("basic,water,Water,,0").unwrap();
    assert_eq!(f.keywords, words(&[""]));
}

#[test]
fn food_line_that_does_not_read() {
    assert!(Food::from_string("").is_none());
    assert!(Food::from_string("basic,apple,Apple,fruit").is_none());
    assert!(Food::from_string("basic,apple,Apple,fruit,").is_none());
    assert!(Food::from_string("basic,apple,Apple,fruit,many").is_none());
    assert!(Food::from_string("basic,apple,Apple,fruit,-1").is_none());
    assert!(Food::from_string("Basic,apple,Apple,fruit,95").is_none());
    assert!(Food::from_string("simple,apple,Apple,fruit,95").is_none());
    assert!(Food::from_string("composite,s,S,k").is_none());
}

#[test]
fn food_line_may_have_more_fields() {
    let f = Food::from_string("basic,apple,Apple,fruit,95,and,more").unwrap();
    assert_eq!(f.calories_per_serving, 95);
}

#[test]
fn catalog_lines_follow_catalog_order() {
    let mut db = FoodDatabase::new();
    db.add_food(Food::new_basic("bread", "Bread", words(&["bread", "grain"]), 80));
    db.add_food(Food::new_composite("toast", "Toast", words(&["toast"]), parts(&[("bread", 2)])));
    db.add_food(Food::new_basic("pb", "Peanut Butter", words(&["peanut"]), 190));
    db.calculate_composite_calories();
    assert_eq!(
        db.to_lines(),
        words(&["basic,bread,Bread,bread|grain,80", "composite,toast,Toast,toast,bread:2", "basic,pb,Peanut Butter,peanut,190"])
    );
    assert!(FoodDatabase::new().to_lines().is_empty());
}

#[test]
fn catalog_loads_lines_and_resolves_once() {
    let mut db = FoodDatabase::new();
    db.load_lines(&words(&[
        "composite,lunch,Lunch,lunch,toast:2",
        "basic,bread,Bread,bread|grain,80",
        "this line is no food",
        "",
        "composite,toast,Toast,toast,bread:2|butter:1",
        "basic,butter,Butter,butter|fat,102",
        "basic,bad,Bad,bad,12x",
    ]));
    assert_eq!(db.all().len(), 4);
    assert!(db.get_food("bad").is_none());
    assert_eq!(db.get_food("toast").unwrap().calories_per_serving, 262);
    // one pass only: lunch was computed from the unresolved toast
    assert_eq!(db.get_food("lunch").unwrap().calories_per_serving, 0);
    db.calculate_composite_calories();
    assert_eq!(db.get_food("lunch").unwrap().calories_per_serving, 524);
}

#[test]
fn catalog_survives_a_round_trip_through_lines() {
    let mut db = FoodDatabase::new();
    db.add_food(Food::new_basic("bread", "Bread", words(&["bread", "grain"]), 80));
    db.add_food(Food::new_basic("pb", "Peanut Butter", words(&["peanut", "butter"]), 190));
    db.add_food(Food::new_composite("s", "Sandwich", words(&["sandwich"]), parts(&[("bread", 2), ("pb", 1)])));
    db.calculate_composite_calories();
    let lines = db.to_lines();
    let mut copy = FoodDatabase::new();
    copy.load_lines(&lines);
    assert_eq!(copy.to_lines(), lines);
    assert_eq!(copy.get_food("s").unwrap().calories_per_serving, 350);
}

#[test]
fn ledger_lines_go_date_by_date() {
    let mut log = DailyLog::new();
    log.add_entry("2024-03-02", FoodEntry::at("egg", 2, 30));
    log.add_entry("2024-03-01", FoodEntry::at("bread", 1, 10));
    log.add_entry("2024-03-02", FoodEntry::at("pb", 3, 40));
    log.add_entry("2024-03-01", FoodEntry::at("rice", 5, 20));
    assert_eq!(
        log.to_lines(),
        words(&["2024-03-02,egg,2,30", "2024-03-02,pb,3,40", "2024-03-01,bread,1,10", "2024-03-01,rice,5,20"])
    );
    let all = log.all_entries();
    assert_eq!(all.len(), 4);
    assert_eq!(all[0].0.as_str(), "2024-03-02");
    assert_eq!(entry_fields(all[0].1), ("egg".to_string(), 2, 30));
    assert_eq!(all[3].0.as_str(), "2024-03-01");
    assert_eq!(entry_fields(all[3].1), ("rice".to_string(), 5, 20));
    assert!(DailyLog::new().to_lines().is_empty());
    assert!(DailyLog::new().all_entries().is_empty());
}

#[test]
fn ledger_lines_skip_emptied_dates() {
    let mut log = DailyLog::new();
    log.add_entry("mon", FoodEntry::at("a", 1, 1));
    log.add_entry("tue", FoodEntry::at("b", 2, 2));
    assert!(log.delete_food("mon", 0));
    assert_eq!(log.to_lines(), words(&["tue,b,2,2"]));
}

#[test]
fn ledger_loads_lines_without_commands() {
    let mut log = DailyLog::new();
    log.load_lines(&words(&[
        "2024-03-01,bread,2,100",
        "2024-03-02,egg,1,200",
        "no entry here",
        "2024-03-01,pb,x,300",
        "2024-03-01,pb,1",
        "2024-03-01,pb,1,300,extra",
        "",
    ]));
    let day = log.get_entries_for_date("2024-03-01");
    assert_eq!(day.len(), 2);
    assert_eq!(entry_fields(day[0]), ("bread".to_string(), 2, 100));
    assert_eq!(entry_fields(day[1]), ("pb".to_string(), 1, 300));
    assert_eq!(log.get_entries_for_date("2024-03-02").len(), 1);
    assert!(!log.undo());
    assert_eq!(log.get_entries_for_date("2024-03-01").len(), 2);
}

#[test]
fn ledger_line_by_line() {
    let mut log = DailyLog::new();
    log.load_line("d,bread,2,100");
    log.load_line("d,bread,2");
    log.load_line("d,bread,+3,0100");
    let day = log.get_entries_for_date("d");
    assert_eq!(day.len(), 2);
    assert_eq!(entry_fields(day[1]), ("bread".to_string(), 3, 100));
}

#[test]
fn ledger_survives_a_round_trip_through_lines() {
    let mut log = DailyLog::new();
    log.add_entry("2024-03-02", FoodEntry::at("egg", 2, 30));
    log.add_entry("2024-03-01", FoodEntry::at("bread", 1, 10));
    log.add_entry("2024-03-02", FoodEntry::at("pb", 3, 40));
    let lines = log.to_lines();
    let mut copy = DailyLog::new();
    copy.load_lines(&lines);
    assert_eq!(copy.to_lines(), lines);
}
