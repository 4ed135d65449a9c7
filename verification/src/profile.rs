//! What a user's profile is made of besides numbers: gender, activity level
//! and the method that estimates the daily calorie target; the line that a
//! profile is stored as; and the history of profile snapshots.

use vstd::prelude::*;
use vstd::string::StringExecFns;
use crate::text::{
    decimal, decimal_text, lowercase, parse_u32, parsed_unsigned, split, split_text, str_eq,
    to_lowercase,
};

verus! {

/// How active a user is.
#[derive(Clone, Copy, Debug, PartialEq, Eq, Structural)]
pub enum ActivityLevel {
    Sedentary,
    LightlyActive,
    ModeratelyActive,
    VeryActive,
    ExtremelyActive,
}

/// The activity level that a lowercase word names.
pub open spec fn activity_named(word: Seq<char>) -> Option<ActivityLevel> {
    if word == "sedentary"@ {
        Some(ActivityLevel::Sedentary)
    } else if word == "lightly"@ {
        Some(ActivityLevel::LightlyActive)
    } else if word == "moderately"@ {
        Some(ActivityLevel::ModeratelyActive)
    } else if word == "very"@ {
        Some(ActivityLevel::VeryActive)
    } else if word == "extremely"@ {
        Some(ActivityLevel::ExtremelyActive)
    } else {
        None
    }
}

/// The activity level of a choice from 1 to 5, and of any other choice.
pub open spec fn activity_chosen(choice: u32) -> ActivityLevel {
    if choice == 1 {
        ActivityLevel::Sedentary
    } else if choice == 2 {
        ActivityLevel::LightlyActive
    } else if choice == 4 {
        ActivityLevel::VeryActive
    } else if choice == 5 {
        ActivityLevel::ExtremelyActive
    } else {
        ActivityLevel::ModeratelyActive
    }
}

/// The label under which an activity level is stored.
pub open spec fn activity_label(level: ActivityLevel) -> Seq<char> {
    match level {
        ActivityLevel::Sedentary => "Sedentary"@,
        ActivityLevel::LightlyActive => "LightlyActive"@,
        ActivityLevel::ModeratelyActive => "ModeratelyActive"@,
        ActivityLevel::VeryActive => "VeryActive"@,
        ActivityLevel::ExtremelyActive => "ExtremelyActive"@,
    }
}

/// The activity level that a stored label stands for.
pub open spec fn activity_labelled(label: Seq<char>) -> Option<ActivityLevel> {
    if label == "Sedentary"@ {
        Some(ActivityLevel::Sedentary)
    } else if label == "LightlyActive"@ {
        Some(ActivityLevel::LightlyActive)
    } else if label == "ModeratelyActive"@ {
        Some(ActivityLevel::ModeratelyActive)
    } else if label == "VeryActive"@ {
        Some(ActivityLevel::VeryActive)
    } else if label == "ExtremelyActive"@ {
        Some(ActivityLevel::ExtremelyActive)
    } else {
        None
    }
}

impl ActivityLevel {
    /// The activity level that a word names, case ignored.
    pub fn from_str(s: &str) -> (r: Option<ActivityLevel>)
        ensures
            r == activity_named(lowercase(s@)),
    {
        ActivityLevel::from_lowercase(to_lowercase(s).as_str())
    }

    /// The activity level that a lowercase word names.
    pub fn from_lowercase(word: &str) -> (r: Option<ActivityLevel>)
        ensures
            r == activity_named(word@),
    {
        if str_eq(word, "sedentary") {
            Some(ActivityLevel::Sedentary)
        } else if str_eq(word, "lightly") {
            Some(ActivityLevel::LightlyActive)
        } else if str_eq(word, "moderately") {
            Some(ActivityLevel::ModeratelyActive)
        } else if str_eq(word, "very") {
            Some(ActivityLevel::VeryActive)
        } else if str_eq(word, "extremely") {
            Some(ActivityLevel::ExtremelyActive)
        } else {
            None
        }
    }

    /// The activity level of a choice from 1 (sedentary) to 5 (extremely
    /// active); any other choice stands for moderately active.
    pub fn from_choice(choice: u32) -> (r: ActivityLevel)
        ensures
            r == activity_chosen(choice),
    {
        match choice {
            1 => ActivityLevel::Sedentary,
            2 => ActivityLevel::LightlyActive,
            4 => ActivityLevel::VeryActive,
            5 => ActivityLevel::ExtremelyActive,
            _ => ActivityLevel::ModeratelyActive,
        }
    }

    /// The label under which this activity level is stored.
    pub fn label(&self) -> (r: &'static str)
        ensures
            r@ == activity_label(*self),
    {
        match self {
            ActivityLevel::Sedentary => "Sedentary",
            ActivityLevel::LightlyActive => "LightlyActive",
            ActivityLevel::ModeratelyActive => "ModeratelyActive",
            ActivityLevel::VeryActive => "VeryActive",
            ActivityLevel::ExtremelyActive => "ExtremelyActive",
        }
    }

    /// The activity level that a stored label stands for.
    pub fn from_label(label: &str) -> (r: Option<ActivityLevel>)
        ensures
            r == activity_labelled(label@),
    {
        if str_eq(label, "Sedentary") {
            Some(ActivityLevel::Sedentary)
        } else if str_eq(label, "LightlyActive") {
            Some(ActivityLevel::LightlyActive)
        } else if str_eq(label, "ModeratelyActive") {
            Some(ActivityLevel::ModeratelyActive)
        } else if str_eq(label, "VeryActive") {
            Some(ActivityLevel::VeryActive)
        } else if str_eq(label, "ExtremelyActive") {
            Some(ActivityLevel::ExtremelyActive)
        } else {
            None
        }
    }
}

/// A user's gender, as far as the calorie estimates tell genders apart.
#[derive(Clone, Copy, Debug, PartialEq, Eq, Structural)]
pub enum Gender {
    Male,
    Female,
    Other,
}

/// The gender that a lowercase word names: `male` or `m`, `female` or `f`;
/// any other word names `Other`.
pub open spec fn gender_named(word: Seq<char>) -> Gender {
    if word == "male"@ || word == "m"@ {
        Gender::Male
    } else if word == "female"@ || word == "f"@ {
        Gender::Female
    } else {
        Gender::Other
    }
}

/// The label under which a gender is stored.
pub open spec fn gender_label(gender: Gender) -> Seq<char> {
    match gender {
        Gender::Male => "Male"@,
        Gender::Female => "Female"@,
        Gender::Other => "Other"@,
    }
}

/// The gender that a stored label stands for: `Male` or `male`, `Female` or
/// `female`; any other label stands for `Other`.
pub open spec fn gender_labelled(label: Seq<char>) -> Gender {
    if label == "Male"@ || label == "male"@ {
        Gender::Male
    } else if label == "Female"@ || label == "female"@ {
        Gender::Female
    } else {
        Gender::Other
    }
}

impl Gender {
    /// The gender that a word names, case ignored. Every word names one.
    pub fn from_str(s: &str) -> (r: Option<Gender>)
        ensures
            r == Some(gender_named(lowercase(s@))),
    {
        Some(Gender::from_lowercase(to_lowercase(s).as_str()))
    }

    /// The gender that a lowercase word names.
    pub fn from_lowercase(word: &str) -> (r: Gender)
        ensures
            r == gender_named(word@),
    {
        if str_eq(word, "male") || str_eq(word, "m") {
            Gender::Male
        } else if str_eq(word, "female") || str_eq(word, "f") {
            Gender::Female
        } else {
            Gender::Other
        }
    }

    /// The label under which this gender is stored.
    pub fn label(&self) -> (r: &'static str)
        ensures
            r@ == gender_label(*self),
    {
        match self {
            Gender::Male => "Male",
            Gender::Female => "Female",
            Gender::Other => "Other",
        }
    }

    /// The gender that a stored label stands for.
    pub fn from_label(label: &str) -> (r: Gender)
        ensures
            r == gender_labelled(label@),
    {
        if str_eq(label, "Male") || str_eq(label, "male") {
            Gender::Male
        } else if str_eq(label, "Female") || str_eq(label, "female") {
            Gender::Female
        } else {
            Gender::Other
        }
    }
}

/// The daily calorie target where the calculation method is not recognized.
pub const DEFAULT_TARGET_CALORIES: u32 = 2000;

/// The daily calorie target under the method of the given name: what the
/// Harris-Benedict equation estimates for `harris-benedict`, what the
/// Mifflin-St Jeor equation estimates for `mifflin-st-jeor`, and the default
/// for any other name.
pub open spec fn target_calories(
    method: Seq<char>,
    harris_benedict: u32,
    mifflin_st_jeor: u32,
) -> u32 {
    if method == "harris-benedict"@ {
        harris_benedict
    } else if method == "mifflin-st-jeor"@ {
        mifflin_st_jeor
    } else {
        DEFAULT_TARGET_CALORIES
    }
}

/// The daily calorie target under the method of the given name, from the two
/// estimates; see `target_calories`.
pub fn get_target_calories(method: &str, harris_benedict: u32, mifflin_st_jeor: u32) -> (r: u32)
    ensures
        r == target_calories(method@, harris_benedict, mifflin_st_jeor),
{
    if str_eq(method, "harris-benedict") {
        harris_benedict
    } else if str_eq(method, "mifflin-st-jeor") {
        mifflin_st_jeor
    } else {
        DEFAULT_TARGET_CALORIES
    }
}

/// A history of profile snapshots, latest last. A snapshot is taken before a
/// profile is edited; `undo` hands the latest one back.
pub struct ProfileHistory<P> {
    snapshots: Vec<P>,
}

impl<P> View for ProfileHistory<P> {
    type V = Seq<P>;

    closed spec fn view(&self) -> Seq<P> {
        self.snapshots@
    }
}

impl<P> ProfileHistory<P> {
    /// A history without snapshots.
    pub fn new() -> (r: Self)
        ensures
            r@ == Seq::<P>::empty(),
    {
        ProfileHistory { snapshots: Vec::new() }
    }

    /// Keeps a snapshot of a profile.
    pub fn checkpoint(&mut self, profile: P)
        ensures
            final(self)@ == old(self)@.push(profile),
    {
        self.snapshots.push(profile);
    }

    /// Hands back the latest snapshot and drops it from the history; `None`
    /// where there is nothing to undo.
    pub fn undo(&mut self) -> (r: Option<P>)
        ensures
            match r {
                Some(profile) => {
                    &&& old(self)@.len() > 0
                    &&& profile == old(self)@.last()
                    &&& final(self)@ == old(self)@.drop_last()
                },
                None => old(self)@.len() == 0 && final(self)@ == old(self)@,
            },
    {
        self.snapshots.pop()
    }

    /// How many snapshots the history holds.
    pub fn len(&self) -> (r: usize)
        ensures
            r == self@.len(),
    {
        self.snapshots.len()
    }
}

/// A profile as it is stored: one line of seven fields. Height and weight are
/// kept as the text that stands in the line; the numbers they write are for
/// the caller to read.
pub struct ProfileRecord {
    pub username: String,
    pub gender: Gender,
    pub height: String,
    pub age: u32,
    pub weight: String,
    pub activity_level: ActivityLevel,
    pub calculation_method: String,
}

/// What a `ProfileRecord` holds, as mathematical values.
pub struct ProfileRecordView {
    pub username: Seq<char>,
    pub gender: Gender,
    pub height: Seq<char>,
    pub age: u32,
    pub weight: Seq<char>,
    pub activity_level: ActivityLevel,
    pub calculation_method: Seq<char>,
}

impl View for ProfileRecord {
    type V = ProfileRecordView;

    open spec fn view(&self) -> ProfileRecordView {
        ProfileRecordView {
            username: self.username@,
            gender: self.gender,
            height: self.height@,
            age: self.age,
            weight: self.weight@,
            activity_level: self.activity_level,
            calculation_method: self.calculation_method@,
        }
    }
}

/// The line that stands for a profile: user name, gender, height, age,
/// weight, activity level, calculation method.
pub open spec fn encoded_profile(record: ProfileRecordView) -> Seq<char> {
    record.username.push(',') + gender_label(record.gender).push(',') + record.height.push(',')
        + decimal_text(record.age as nat).push(',') + record.weight.push(',') + activity_label(
        record.activity_level,
    ).push(',') + record.calculation_method
}

/// The profile that a line stands for: its first seven fields, further ones
/// ignored. `None` where there are fewer fields, the activity level is no
/// stored label, or the age does not read.
pub open spec fn decoded_profile(line: Seq<char>) -> Option<ProfileRecordView> {
    let fields = split_text(line, ',');
    if fields.len() < 7 {
        None
    } else {
        match (activity_labelled(fields[5]), parsed_unsigned(fields[3], u32::MAX as nat)) {
            (Some(activity_level), Some(age)) => Some(
                ProfileRecordView {
                    username: fields[0],
                    gender: gender_labelled(fields[1]),
                    height: fields[2],
                    age: age as u32,
                    weight: fields[4],
                    activity_level,
                    calculation_method: fields[6],
                },
            ),
            _ => None,
        }
    }
}

impl ProfileRecord {
    /// The line that stands for this profile.
    pub fn to_string(&self) -> (r: String)
        ensures
            r@ == encoded_profile(self@),
    {
        proof {
            reveal_strlit(",");
        }
        assert(","@ =~= seq![',']);
        let mut line = self.username.clone();
        line.append(",");
        line.append(self.gender.label());
        line.append(",");
        line.append(self.height.as_str());
        line.append(",");
        line.append(decimal(self.age as u64).as_str());
        line.append(",");
        line.append(self.weight.as_str());
        line.append(",");
        line.append(self.activity_level.label());
        line.append(",");
        line.append(self.calculation_method.as_str());
        assert(line@ =~= encoded_profile(self@));
        line
    }

    /// The profile that a line stands for, if it stands for one.
    pub fn from_string(s: &str) -> (r: Option<ProfileRecord>)
        ensures
            match r {
                Some(record) => decoded_profile(s@) == Some(record@),
                None => decoded_profile(s@) is None,
            },
    {
        let parts = split(s, ',');
        if parts.len() < 7 {
            return None;
        }
        let ghost fields = split_text(s@, ',');
        assert(fields[0] == parts@[0]@ && fields[1] == parts@[1]@ && fields[2] == parts@[2]@
            && fields[3] == parts@[3]@ && fields[4] == parts@[4]@ && fields[5] == parts@[5]@
            && fields[6] == parts@[6]@);
        let gender = Gender::from_label(parts[1]);
        let activity_level = match ActivityLevel::from_label(parts[5]) {
            Some(level) => level,
            None => {
                return None;
            },
        };
        let age = match parse_u32(parts[3]) {
            Some(n) => n,
            None => {
                return None;
            },
        };
        Some(
            ProfileRecord {
                username: parts[0].to_owned(),
                gender,
                height: parts[2].to_owned(),
                age,
                weight: parts[4].to_owned(),
                activity_level,
                calculation_method: parts[6].to_owned(),
            },
        )
    }
}

} // verus!
