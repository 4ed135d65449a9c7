use yada::profile::{
    get_target_calories, ActivityLevel, Gender, ProfileHistory, ProfileRecord,
    DEFAULT_TARGET_CALORIES,
};
use yada::users::UserManager;

#[test]
fn activity_level_from_a_word() {
    assert_eq!(ActivityLevel::from_str("sedentary"), Some(ActivityLevel::Sedentary));
    assert_eq!(ActivityLevel::from_str("lightly"), Some(ActivityLevel::LightlyActive));
    assert_eq!(ActivityLevel::from_str("moderately"), Some(ActivityLevel::ModeratelyActive));
    assert_eq!(ActivityLevel::from_str("very"), Some(ActivityLevel::VeryActive));
    assert_eq!(ActivityLevel::from_str("extremely"), Some(ActivityLevel::ExtremelyActive));
    assert_eq!(ActivityLevel::from_str("Sedentary"), Some(ActivityLevel::Sedentary));
    assert_eq!(ActivityLevel::from_str("VERY"), Some(ActivityLevel::VeryActive));
    assert_eq!(ActivityLevel::from_str("LightlyActive"), None);
    assert_eq!(ActivityLevel::from_str(" very"), None);
    assert_eq!(ActivityLevel::from_str(""), None);
}

#[test]
fn activity_level_from_a_lowercase_word_is_case_sensitive() {
    assert_eq!(ActivityLevel::from_lowercase("very"), Some(ActivityLevel::VeryActive));
    assert_eq!(ActivityLevel::from_lowercase("Very"), None);
    assert_eq!(ActivityLevel::from_lowercase("extremely"), Some(ActivityLevel::ExtremelyActive));
}

#[test]
fn activity_level_labels() {
    let all = [
        (ActivityLevel::Sedentary, "Sedentary"),
        (ActivityLevel::LightlyActive, "LightlyActive"),
        (ActivityLevel::ModeratelyActive, "ModeratelyActive"),
        (ActivityLevel::VeryActive, "VeryActive"),
        (ActivityLevel::ExtremelyActive, "ExtremelyActive"),
    ];
    for (level, label) in all {
        assert_eq!(level.label(), label);
        assert_eq!(ActivityLevel::from_label(label), Some(level));
        assert_eq!(level.label(), format!("{:?}", level));
    }
    assert_eq!(ActivityLevel::from_label("sedentary"), None);
    assert_eq!(ActivityLevel::from_label("very"), None);
    assert_eq!(ActivityLevel::from_label(""), None);
}

#[test]
fn gender_from_a_word() {
    assert_eq!(Gender::from_str("male"), Some(Gender::Male));
    assert_eq!(Gender::from_str("m"), Some(Gender::Male));
    assert_eq!(Gender::from_str("M"), Some(Gender::Male));
    assert_eq!(Gender::from_str("MALE"), Some(Gender::Male));
    assert_eq!(Gender::from_str("female"), Some(Gender::Female));
    assert_eq!(Gender::from_str("f"), Some(Gender::Female));
    assert_eq!(Gender::from_str("Female"), Some(Gender::Female));
    assert_eq!(Gender::from_str("other"), Some(Gender::Other));
    assert_eq!(Gender::from_str("x"), Some(Gender::Other));
    assert_eq!(Gender::from_str(""), Some(Gender::Other));
    assert_eq!(Gender::from_str("ma"), Some(Gender::Other));
}

#[test]
fn gender_from_a_lowercase_word_is_case_sensitive() {
    assert_eq!(Gender::from_lowercase("m"), Gender::Male);
    assert_eq!(Gender::from_lowercase("M"), Gender::Other);
    assert_eq!(Gender::from_lowercase("female"), Gender::Female);
    assert_eq!(Gender::from_lowercase("FEMALE"), Gender::Other);
}

#[test]
fn gender_labels() {
    for (gender, label) in [(Gender::Male, "Male"), (Gender::Female, "Female"), (Gender::Other, "Other")] {
        assert_eq!(gender.label(), label);
        assert_eq!(Gender::from_label(label), gender);
        assert_eq!(gender.label(), format!("{:?}", gender));
    }
    assert_eq!(Gender::from_label("male"), Gender::Male);
    assert_eq!(Gender::from_label("female"), Gender::Female);
    assert_eq!(Gender::from_label("MALE"), Gender::Other);
    assert_eq!(Gender::from_label("m"), Gender::Other);
    assert_eq!(Gender::from_label(""), Gender::Other);
}

#[test]
fn target_follows_the_method_name() {
    assert_eq!(get_target_calories("harris-benedict", 2400, 2300), 2400);
    assert_eq!(get_target_calories("mifflin-st-jeor", 2400, 2300), 2300);
    assert_eq!(get_target_calories("keto", 2400, 2300), 2000);
    assert_eq!(get_target_calories("Harris-Benedict", 2400, 2300), 2000);
    assert_eq!(get_target_calories("", 2400, 2300), 2000);
    assert_eq!(DEFAULT_TARGET_CALORIES, 2000);
}

#[test]
fn history_hands_back_the_latest_snapshot() {
    let mut history: ProfileHistory<(String, u32)> = ProfileHistory::new();
    assert_eq!(history.len(), 0);
    assert_eq!(history.undo(), None);
    history.checkpoint(("ann".to_string(), 30));
    history.checkpoint(("ann".to_string(), 31));
    assert_eq!(history.len(), 2);
    assert_eq!(history.undo(), Some(("ann".to_string(), 31)));
    assert_eq!(history.undo(), Some(("ann".to_string(), 30)));
    assert_eq!(history.undo(), None);
    assert_eq!(history.len(), 0);
    history.checkpoint(("bob".to_string(), 1));
    assert_eq!(history.undo(), Some(("bob".to_string(), 1)));
}

fn sample_record() -> ProfileRecord {
    ProfileRecord {
        username: "ann".to_string(),
        gender: Gender::Female,
        height: "170".to_string(),
        age: 30,
        weight: "65.5".to_string(),
        activity_level: ActivityLevel::ModeratelyActive,
        calculation_method: "harris-benedict".to_string(),
    }
}

#[test]
fn profile_line_has_seven_fields() {
    assert_eq!(sample_record().to_string(), "ann,Female,170,30,65.5,ModeratelyActive,harris-benedict");
}

#[test]
fn profile_reads_back_from_its_line() {
    let r = ProfileRecord::from_string("ann,Female,170,30,65.5,ModeratelyActive,harris-benedict").unwrap();
    assert_eq!(r.username, "ann");
    assert_eq!(r.gender, Gender::Female);
    assert_eq!(r.height, "170");
    assert_eq!(r.age, 30);
    assert_eq!(r.weight, "65.5");
    assert_eq!(r.activity_level, ActivityLevel::ModeratelyActive);
    assert_eq!(r.calculation_method, "harris-benedict");
    let again = ProfileRecord::from_string(&sample_record().to_string()).unwrap();
    assert_eq!(again.to_string(), sample_record().to_string());
}

#[test]
fn profile_line_with_unknown_gender_or_method() {
    let r = ProfileRecord::from_string("bo,male,180,41,80,Sedentary,whatever,extra").unwrap();
    assert_eq!(r.gender, Gender::Male);
    assert_eq!(r.calculation_method, "whatever");
    let r = ProfileRecord::from_string("bo,?,180,41,80,Sedentary,").unwrap();
    assert_eq!(r.gender, Gender::Other);
    assert_eq!(r.calculation_method, "");
    // height and weight are kept as text, whatever they are
    let r = ProfileRecord::from_string("bo,Male,tall,41,heavy,VeryActive,m").unwrap();
    assert_eq!(r.height, "tall");
    assert_eq!(r.weight, "heavy");
}

#[test]
fn profile_line_that_does_not_read() {
    assert!(ProfileRecord::from_string("").is_none());
    assert!(ProfileRecord::from_string("ann,Female,170,30,65.5,ModeratelyActive").is_none());
    assert!(ProfileRecord::from_string("ann,Female,170,30,65.5,moderately,harris-benedict").is_none());
    assert!(ProfileRecord::from_string("ann,Female,170,thirty,65.5,VeryActive,harris-benedict").is_none());
    assert!(ProfileRecord::from_string("ann,Female,170,-3,65.5,VeryActive,harris-benedict").is_none());
    assert!(ProfileRecord::from_string("ann,Female,170,,65.5,VeryActive,harris-benedict").is_none());
}

#[test]
fn users_register_once_and_log_in() {
    let mut users = UserManager::new();
    assert!(!users.authenticate("ann", "secret"));
    assert!(users.register_user("ann", "secret"));
    assert!(users.authenticate("ann", "secret"));
    assert!(!users.authenticate("ann", "Secret"));
    assert!(!users.authenticate("ann", ""));
    assert!(!users.authenticate("Ann", "secret"));
    assert!(!users.authenticate("an", "secret"));
    assert!(!users.register_user("ann", "other"));
    assert!(users.authenticate("ann", "secret"));
    assert!(!users.authenticate("ann", "other"));
    assert!(users.register_user("bob", "secret"));
    assert!(users.authenticate("bob", "secret"));
}

#[test]
fn users_lines() {
    let mut users = UserManager::new();
    users.load_line("ann,secret");
    users.load_line("bob,pw,ignored");
    users.load_line("nobody");
    users.load_line("");
    users.load_line("ann,newer");
    assert!(users.authenticate("ann", "newer"));
    assert!(!users.authenticate("ann", "secret"));
    assert!(users.authenticate("bob", "pw"));
    assert!(!users.authenticate("nobody", ""));
    assert_eq!(users.to_lines(), vec!["ann,newer".to_string(), "bob,pw".to_string()]);
    assert!(UserManager::new().to_lines().is_empty());
}

#[test]
fn activity_level_from_a_choice() {
    assert_eq!(ActivityLevel::from_choice(1), ActivityLevel::Sedentary);
    assert_eq!(ActivityLevel::from_choice(2), ActivityLevel::LightlyActive);
    assert_eq!(ActivityLevel::from_choice(3), ActivityLevel::ModeratelyActive);
    assert_eq!(ActivityLevel::from_choice(4), ActivityLevel::VeryActive);
    assert_eq!(ActivityLevel::from_choice(5), ActivityLevel::ExtremelyActive);
    assert_eq!(ActivityLevel::from_choice(0), ActivityLevel::ModeratelyActive);
    assert_eq!(ActivityLevel::from_choice(6), ActivityLevel::ModeratelyActive);
    assert_eq!(ActivityLevel::from_choice(u32::MAX), ActivityLevel::ModeratelyActive);
}
