//! The line format in which foods and ledger entries are kept: fields
//! separated by `,`, lists inside a field by `|`, a component's id and
//! servings by `:`.

use vstd::prelude::*;
use vstd::string::StringExecFns;
use crate::catalog::{food_views, resolved, with_foods, FoodDatabase};
use crate::food::{portions, Food, FoodView};
use crate::ledger::{dated_ref_views, DailyLog, DailyLogView, FoodEntry, FoodEntryView};
use crate::text::{
    decimal, decimal_text, joined, parse_u32, parse_u64, parsed_unsigned, slice_texts, split,
    split_text, str_eq, texts,
};

verus! {

/// The line that stands for an entry: food id, servings, timestamp.
pub open spec fn encoded_entry(entry: FoodEntryView) -> Seq<char> {
    entry.food_id.push(',') + decimal_text(entry.servings as nat).push(',') + decimal_text(
        entry.timestamp as nat,
    )
}

/// The entry that a line stands for: its first three fields are the food id,
/// the servings and the timestamp; further fields are ignored. `None` where
/// there are fewer fields or a number does not read.
pub open spec fn decoded_entry(line: Seq<char>) -> Option<FoodEntryView> {
    let fields = split_text(line, ',');
    if fields.len() < 3 {
        None
    } else {
        match (
            parsed_unsigned(fields[1], u32::MAX as nat),
            parsed_unsigned(fields[2], u64::MAX as nat),
        ) {
            (Some(servings), Some(timestamp)) => Some(
                FoodEntryView {
                    food_id: fields[0],
                    servings: servings as u32,
                    timestamp: timestamp as u64,
                },
            ),
            _ => None,
        }
    }
}

/// Appends one character, given as a one-character literal, to a line.
fn push_separator(line: &mut String, sep: char)
    requires
        sep == ',' || sep == '|' || sep == ':',
    ensures
        final(line)@ == old(line)@.push(sep),
{
    proof {
        reveal_strlit(",");
        reveal_strlit("|");
        reveal_strlit(":");
    }
    let text = if sep == ',' {
        ","
    } else if sep == '|' {
        "|"
    } else {
        ":"
    };
    assert(text@ =~= seq![sep]);
    line.append(text);
    assert(line@ =~= old(line)@.push(sep));
}

impl FoodEntry {
    /// The line that stands for this entry.
    pub fn to_string(&self) -> (r: String)
        ensures
            r@ == encoded_entry(self@),
    {
        let mut line = self.food_id.clone();
        push_separator(&mut line, ',');
        line.append(decimal(self.servings as u64).as_str());
        push_separator(&mut line, ',');
        line.append(decimal(self.timestamp).as_str());
        assert(line@ =~= encoded_entry(self@));
        line
    }

    /// The entry that a line stands for, if it stands for one.
    pub fn from_string(s: &str) -> (r: Option<FoodEntry>)
        ensures
            match r {
                Some(entry) => decoded_entry(s@) == Some(entry@),
                None => decoded_entry(s@) is None,
            },
    {
        let parts = split(s, ',');
        if parts.len() < 3 {
            return None;
        }
        let ghost fields = split_text(s@, ',');
        assert(fields[0] == parts@[0]@ && fields[1] == parts@[1]@ && fields[2] == parts@[2]@);
        let servings = match parse_u32(parts[1]) {
            Some(n) => n,
            None => {
                return None;
            },
        };
        let timestamp = match parse_u64(parts[2]) {
            Some(n) => n,
            None => {
                return None;
            },
        };
        Some(FoodEntry::at(parts[0], servings, timestamp))
    }
}

/// How each component is written: its id, `:`, its servings.
pub open spec fn encoded_components(components: Seq<(Seq<char>, u32)>) -> Seq<Seq<char>> {
    Seq::new(
        components.len(),
        |i: int| components[i].0.push(':') + decimal_text(components[i].1 as nat),
    )
}

/// The last field of a food's line: the calorie value of a basic food, the
/// components of a composite one.
pub open spec fn encoded_content(food: FoodView) -> Seq<char> {
    if food.is_composite {
        joined(encoded_components(food.components), '|')
    } else {
        decimal_text(food.calories_per_serving as nat)
    }
}

/// The line that stands for a food: kind, id, name, keywords, content.
pub open spec fn encoded_food(food: FoodView) -> Seq<char> {
    let kind = if food.is_composite {
        "composite"@
    } else {
        "basic"@
    };
    kind.push(',') + food.id.push(',') + food.name.push(',') + joined(food.keywords, '|').push(',')
        + encoded_content(food)
}

/// The component that a piece `id:servings` stands for; further `:`-separated
/// parts are ignored. `None` where there is no `:` or the servings do not read.
pub open spec fn decoded_component(piece: Seq<char>) -> Option<(Seq<char>, u32)> {
    let parts = split_text(piece, ':');
    if parts.len() >= 2 {
        match parsed_unsigned(parts[1], u32::MAX as nat) {
            Some(servings) => Some((parts[0], servings as u32)),
            None => None,
        }
    } else {
        None
    }
}

/// The components that the pieces stand for, in order; a piece that stands
/// for none is passed over.
pub open spec fn decoded_components(pieces: Seq<Seq<char>>) -> Seq<(Seq<char>, u32)>
    decreases pieces.len(),
{
    if pieces.len() == 0 {
        Seq::empty()
    } else {
        let before = decoded_components(pieces.drop_last());
        match decoded_component(pieces.last()) {
            Some(component) => before.push(component),
            None => before,
        }
    }
}

/// The food that a line stands for. A line has at least five fields: kind
/// (`basic` or `composite`), id, name, keywords, content. A composite food
/// is read with the calorie value 0. `None` for any other line, and for a
/// basic food whose calorie value does not read.
pub open spec fn decoded_food(line: Seq<char>) -> Option<FoodView> {
    let fields = split_text(line, ',');
    if fields.len() < 5 {
        None
    } else if fields[0] == "basic"@ {
        match parsed_unsigned(fields[4], u32::MAX as nat) {
            Some(calories) => Some(
                FoodView {
                    id: fields[1],
                    name: fields[2],
                    keywords: split_text(fields[3], '|'),
                    calories_per_serving: calories as u32,
                    is_composite: false,
                    components: Seq::empty(),
                },
            ),
            None => None,
        }
    } else if fields[0] == "composite"@ {
        Some(
            FoodView {
                id: fields[1],
                name: fields[2],
                keywords: split_text(fields[3], '|'),
                calories_per_serving: 0,
                is_composite: true,
                components: decoded_components(split_text(fields[4], '|')),
            },
        )
    } else {
        None
    }
}

/// The foods that the lines stand for, in order; a line that stands for none
/// is passed over.
pub open spec fn decoded_foods(lines: Seq<Seq<char>>) -> Seq<FoodView>
    decreases lines.len(),
{
    if lines.len() == 0 {
        Seq::empty()
    } else {
        let before = decoded_foods(lines.drop_last());
        match decoded_food(lines.last()) {
            Some(food) => before.push(food),
            None => before,
        }
    }
}

/// The pieces joined with `sep` between neighbours.
fn join(pieces: &Vec<String>, sep: char) -> (r: String)
    requires
        sep == ',' || sep == '|' || sep == ':',
    ensures
        r@ == joined(texts(pieces@), sep),
{
    let mut line = String::new();
    let ghost all = texts(pieces@);
    let mut i: usize = 0;
    assert(all.take(0) =~= Seq::<Seq<char>>::empty());
    while i < pieces.len()
        invariant
            i <= pieces.len(),
            all == texts(pieces@),
            sep == ',' || sep == '|' || sep == ':',
            line@ == joined(all.take(i as int), sep),
        decreases pieces.len() - i,
    {
        proof {
            assert(all.take(i + 1).drop_last() =~= all.take(i as int));
            assert(all.take(i + 1).last() == pieces@[i as int]@);
        }
        if i > 0 {
            push_separator(&mut line, sep);
        } else {
            assert(all.take(1)[0] == pieces@[0]@);
        }
        line.append(pieces[i].as_str());
        assert(line@ =~= joined(all.take(i + 1), sep));
        i += 1;
    }
    assert(all.take(pieces@.len() as int) =~= all);
    line
}

/// Owned copies of string slices.
fn owned(pieces: &Vec<&str>) -> (r: Vec<String>)
    ensures
        texts(r@) == slice_texts(pieces@),
{
    let mut out: Vec<String> = Vec::new();
    let mut i: usize = 0;
    while i < pieces.len()
        invariant
            i <= pieces.len(),
            out@.len() == i,
            forall|k: int| 0 <= k < i ==> (#[trigger] out@[k])@ == pieces@[k]@,
        decreases pieces.len() - i,
    {
        out.push(pieces[i].to_owned());
        i += 1;
    }
    assert(texts(out@) =~= slice_texts(pieces@));
    out
}

/// Reads one component, written as `id:servings`.
fn component_from_string(piece: &str) -> (r: Option<(String, u32)>)
    ensures
        match r {
            Some(component) => decoded_component(piece@) == Some((component.0@, component.1)),
            None => decoded_component(piece@) is None,
        },
{
    let parts = split(piece, ':');
    if parts.len() >= 2 {
        assert(split_text(piece@, ':')[0] == parts@[0]@);
        assert(split_text(piece@, ':')[1] == parts@[1]@);
        match parse_u32(parts[1]) {
            Some(servings) => Some((parts[0].to_owned(), servings)),
            None => None,
        }
    } else {
        None
    }
}

/// Reads the components of a composite food, written as `id:servings` pieces
/// with `|` between them.
fn components_from_string(field: &str) -> (r: Vec<(String, u32)>)
    ensures
        portions(r@) == decoded_components(split_text(field@, '|')),
{
    let pieces = split(field, '|');
    let ghost all = slice_texts(pieces@);
    let mut components: Vec<(String, u32)> = Vec::new();
    let mut i: usize = 0;
    assert(all.take(0) =~= Seq::<Seq<char>>::empty());
    assert(portions(components@) =~= decoded_components(all.take(0)));
    while i < pieces.len()
        invariant
            i <= pieces.len(),
            all == slice_texts(pieces@),
            portions(components@) == decoded_components(all.take(i as int)),
        decreases pieces.len() - i,
    {
        proof {
            assert(all.take(i + 1).drop_last() =~= all.take(i as int));
            assert(all.take(i + 1).last() == pieces@[i as int]@);
        }
        match component_from_string(pieces[i]) {
            Some(component) => {
                let ghost before = portions(components@);
                components.push(component);
                assert(portions(components@) =~= before.push((component.0@, component.1)));
            },
            None => {},
        }
        i += 1;
    }
    assert(all.take(pieces@.len() as int) =~= all);
    components
}

impl Food {
    /// The line that stands for this food.
    pub fn to_string(&self) -> (r: String)
        ensures
            r@ == encoded_food(self@),
    {
        let mut line = if self.is_composite {
            "composite".to_owned()
        } else {
            "basic".to_owned()
        };
        push_separator(&mut line, ',');
        line.append(self.id.as_str());
        push_separator(&mut line, ',');
        line.append(self.name.as_str());
        push_separator(&mut line, ',');
        line.append(join(&self.keywords, '|').as_str());
        push_separator(&mut line, ',');
        if !self.is_composite {
            line.append(decimal(self.calories_per_serving as u64).as_str());
        } else {
            let mut pieces: Vec<String> = Vec::new();
            let mut i: usize = 0;
            while i < self.components.len()
                invariant
                    i <= self.components.len(),
                    pieces@.len() == i,
                    forall|k: int|
                        0 <= k < i ==> (#[trigger] pieces@[k])@ == encoded_components(
                            self@.components,
                        )[k],
                decreases self.components.len() - i,
            {
                let mut piece = self.components[i].0.clone();
                push_separator(&mut piece, ':');
                piece.append(decimal(self.components[i].1 as u64).as_str());
                pieces.push(piece);
                i += 1;
            }
            assert(texts(pieces@) =~= encoded_components(self@.components));
            line.append(join(&pieces, '|').as_str());
        }
        assert(line@ =~= encoded_food(self@));
        line
    }

    /// The food that a line stands for, if it stands for one.
    pub fn from_string(s: &str) -> (r: Option<Food>)
        ensures
            match r {
                Some(food) => decoded_food(s@) == Some(food@),
                None => decoded_food(s@) is None,
            },
    {
        let parts = split(s, ',');
        if parts.len() < 5 {
            return None;
        }
        let ghost fields = split_text(s@, ',');
        assert(fields[0] == parts@[0]@ && fields[1] == parts@[1]@ && fields[2] == parts@[2]@
            && fields[3] == parts@[3]@ && fields[4] == parts@[4]@);
        let keywords = owned(&split(parts[3], '|'));
        if str_eq(parts[0], "basic") {
            match parse_u32(parts[4]) {
                Some(calories) => Some(Food::new_basic(parts[1], parts[2], keywords, calories)),
                None => None,
            }
        } else if str_eq(parts[0], "composite") {
            let components = components_from_string(parts[4]);
            Some(Food::new_composite(parts[1], parts[2], keywords, components))
        } else {
            None
        }
    }
}

impl FoodDatabase {
    /// The lines that stand for the foods of the catalog, in catalog order.
    pub fn to_lines(&self) -> (r: Vec<String>)
        ensures
            texts(r@) == Seq::new(self@.len(), |i: int| encoded_food(self@[i])),
    {
        let foods = self.all();
        let mut lines: Vec<String> = Vec::new();
        let mut i: usize = 0;
        while i < foods.len()
            invariant
                i <= foods.len(),
                lines@.len() == i,
                forall|k: int| 0 <= k < i ==> (#[trigger] lines@[k])@ == encoded_food(foods@[k]@),
            decreases foods.len() - i,
        {
            lines.push(foods[i].to_string());
            i += 1;
        }
        assert(texts(lines@) =~= Seq::new(self@.len(), |i: int| encoded_food(self@[i])));
        lines
    }

    /// Takes in the foods that the lines stand for, in order, and runs one
    /// resolution pass. A line that stands for no food is passed over.
    pub fn load_lines(&mut self, lines: &Vec<String>)
        ensures
            final(self)@ == resolved(with_foods(old(self)@, decoded_foods(texts(lines@)))),
    {
        let ghost all = texts(lines@);
        let mut foods: Vec<Food> = Vec::new();
        let mut i: usize = 0;
        assert(all.take(0) =~= Seq::<Seq<char>>::empty());
        assert(food_views(foods@) =~= decoded_foods(all.take(0)));
        while i < lines.len()
            invariant
                i <= lines.len(),
                all == texts(lines@),
                food_views(foods@) == decoded_foods(all.take(i as int)),
            decreases lines.len() - i,
        {
            proof {
                assert(all.take(i + 1).drop_last() =~= all.take(i as int));
                assert(all.take(i + 1).last() == lines@[i as int]@);
            }
            match Food::from_string(lines[i].as_str()) {
                Some(food) => {
                    let ghost before = food_views(foods@);
                    foods.push(food);
                    assert(food_views(foods@) =~= before.push(food@));
                },
                None => {},
            }
            i += 1;
        }
        assert(all.take(lines@.len() as int) =~= all);
        self.add_foods(foods);
    }
}

/// The line that stands for an entry of the ledger: its date, then the entry.
pub open spec fn encoded_dated(dated: (Seq<char>, FoodEntryView)) -> Seq<char> {
    dated.0.push(',') + encoded_entry(dated.1)
}

/// The date and the entry that a line of the ledger stands for: its first
/// four fields are the date, the food id, the servings and the timestamp;
/// further fields are ignored. `None` where there are fewer fields or a
/// number does not read.
pub open spec fn decoded_dated(line: Seq<char>) -> Option<(Seq<char>, FoodEntryView)> {
    let fields = split_text(line, ',');
    if fields.len() < 4 {
        None
    } else {
        match (
            parsed_unsigned(fields[2], u32::MAX as nat),
            parsed_unsigned(fields[3], u64::MAX as nat),
        ) {
            (Some(servings), Some(timestamp)) => Some(
                (
                    fields[0],
                    FoodEntryView {
                        food_id: fields[1],
                        servings: servings as u32,
                        timestamp: timestamp as u64,
                    },
                ),
            ),
            _ => None,
        }
    }
}

/// The ledger after the entry of one line is taken in; unchanged by a line
/// that stands for no entry.
pub open spec fn with_line(log: DailyLogView, line: Seq<char>) -> DailyLogView {
    match decoded_dated(line) {
        Some((date, entry)) => log.restored(date, entry),
        None => log,
    }
}

/// The ledger after the entries of the lines are taken in, first to last.
pub open spec fn with_lines(log: DailyLogView, lines: Seq<Seq<char>>) -> DailyLogView
    decreases lines.len(),
{
    if lines.len() == 0 {
        log
    } else {
        with_line(with_lines(log, lines.drop_last()), lines.last())
    }
}

impl DailyLog {
    /// The lines that stand for the entries of the ledger, in the order of
    /// `all_entries`.
    pub fn to_lines(&self) -> (r: Vec<String>)
        ensures
            texts(r@) == Seq::new(
                self@.all_entries().len(),
                |i: int| encoded_dated(self@.all_entries()[i]),
            ),
    {
        let entries = self.all_entries();
        let mut lines: Vec<String> = Vec::new();
        let mut i: usize = 0;
        while i < entries.len()
            invariant
                i <= entries.len(),
                lines@.len() == i,
                forall|k: int|
                    0 <= k < i ==> (#[trigger] lines@[k])@ == encoded_dated(
                        dated_ref_views(entries@)[k],
                    ),
            decreases entries.len() - i,
        {
            let mut line = entries[i].0.clone();
            push_separator(&mut line, ',');
            line.append(entries[i].1.to_string().as_str());
            lines.push(line);
            i += 1;
        }
        assert(texts(lines@) =~= Seq::new(
            self@.all_entries().len(),
            |i: int| encoded_dated(self@.all_entries()[i]),
        ));
        lines
    }

    /// Takes in the entry that a line stands for, without a command: `undo`
    /// does not take it back. A line that stands for no entry changes nothing.
    pub fn load_line(&mut self, line: &str)
        ensures
            final(self)@ == with_line(old(self)@, line@),
    {
        let parts = split(line, ',');
        if parts.len() < 4 {
            return ;
        }
        let ghost fields = split_text(line@, ',');
        assert(fields[0] == parts@[0]@ && fields[1] == parts@[1]@ && fields[2] == parts@[2]@
            && fields[3] == parts@[3]@);
        let servings = match parse_u32(parts[2]) {
            Some(n) => n,
            None => {
                return ;
            },
        };
        let timestamp = match parse_u64(parts[3]) {
            Some(n) => n,
            None => {
                return ;
            },
        };
        self.load_entry(parts[0], FoodEntry::at(parts[1], servings, timestamp));
    }

    /// Takes in the entries that the lines stand for, first to last.
    pub fn load_lines(&mut self, lines: &Vec<String>)
        ensures
            final(self)@ == with_lines(old(self)@, texts(lines@)),
    {
        let ghost all = texts(lines@);
        let mut i: usize = 0;
        assert(all.take(0) =~= Seq::<Seq<char>>::empty());
        while i < lines.len()
            invariant
                i <= lines.len(),
                all == texts(lines@),
                self@ == with_lines(old(self)@, all.take(i as int)),
            decreases lines.len() - i,
        {
            proof {
                assert(all.take(i + 1).drop_last() =~= all.take(i as int));
                assert(all.take(i + 1).last() == lines@[i as int]@);
            }
            self.load_line(lines[i].as_str());
            i += 1;
        }
        assert(all.take(lines@.len() as int) =~= all);
    }
}

} // verus!
