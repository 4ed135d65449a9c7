//! The daily ledger: what was eaten on each date, in the order it was logged,
//! with a history of commands that `undo` takes back one by one.

use vstd::prelude::*;
use vstd::arithmetic::div_mod::lemma_add_mod_noop;
use crate::catalog::{calories_of, portions_total, wrapped, FoodDatabase};
use crate::food::FoodView;
use crate::keys::{distinct, find, lemma_find_at};
use crate::laws::{
    law_deleting_keeps_consistent, law_logging_keeps_consistent, law_nothing_to_undo_is_balanced,
    law_restoring_keeps_consistent, law_undo_succeeds_unless_stack_is_empty,
};
use crate::text::str_eq;

verus! {

/// One line of the ledger: so many servings of a food, logged at a time.
pub struct FoodEntry {
    pub food_id: String,
    pub servings: u32,
    /// Seconds since the Unix epoch at which the entry was made.
    pub timestamp: u64,
}

/// What a `FoodEntry` holds, as mathematical values.
pub struct FoodEntryView {
    pub food_id: Seq<char>,
    pub servings: u32,
    pub timestamp: u64,
}

impl View for FoodEntry {
    type V = FoodEntryView;

    open spec fn view(&self) -> FoodEntryView {
        FoodEntryView {
            food_id: self.food_id@,
            servings: self.servings,
            timestamp: self.timestamp,
        }
    }
}

impl Clone for FoodEntry {
    fn clone(&self) -> (r: FoodEntry)
        ensures
            r@ == self@,
    {
        FoodEntry {
            food_id: self.food_id.clone(),
            servings: self.servings,
            timestamp: self.timestamp,
        }
    }
}

/// Trusted: `SystemTime::now`, read as whole seconds since the Unix epoch;
/// `None` where the clock reads a time before the epoch. Nothing is claimed of
/// the value.
#[verifier::external_body]
fn unix_seconds() -> (r: Option<u64>) {
    match std::time::SystemTime::now().duration_since(std::time::UNIX_EPOCH) {
        Ok(since_epoch) => Some(since_epoch.as_secs()),
        Err(_) => None,
    }
}

impl FoodEntry {
    /// An entry made at the given time.
    pub fn at(food_id: &str, servings: u32, timestamp: u64) -> (r: FoodEntry)
        ensures
            r@ == (FoodEntryView { food_id: food_id@, servings, timestamp }),
    {
        FoodEntry { food_id: food_id.to_owned(), servings, timestamp }
    }

    /// An entry made now. The timestamp is what the system clock reads, and 0
    /// where the clock reads a time before the Unix epoch.
    pub fn new(food_id: &str, servings: u32) -> (r: FoodEntry)
        ensures
            r@.food_id == food_id@,
            r@.servings == servings,
    {
        let timestamp = match unix_seconds() {
            Some(seconds) => seconds,
            None => 0,
        };
        FoodEntry::at(food_id, servings, timestamp)
    }
}

/// A change to the ledger that `undo` can take back: the date it was made on,
/// and the entry that was added or removed.
pub enum CommandType {
    AddFood(String, FoodEntry),
    DeleteFood(String, FoodEntry),
}

/// What a `CommandType` holds, as mathematical values.
pub enum CommandView {
    AddFood(Seq<char>, FoodEntryView),
    DeleteFood(Seq<char>, FoodEntryView),
}

impl View for CommandType {
    type V = CommandView;

    open spec fn view(&self) -> CommandView {
        match self {
            CommandType::AddFood(date, entry) => CommandView::AddFood(date@, entry@),
            CommandType::DeleteFood(date, entry) => CommandView::DeleteFood(date@, entry@),
        }
    }
}

/// The entries of one date.
struct Day {
    date: String,
    entries: Vec<FoodEntry>,
}

/// The entries of one date, as mathematical values.
pub struct DayView {
    pub date: Seq<char>,
    pub entries: Seq<FoodEntryView>,
}

/// What a sequence of entries holds.
pub open spec fn entry_views(v: Seq<FoodEntry>) -> Seq<FoodEntryView> {
    Seq::new(v.len(), |i: int| v[i]@)
}

/// What the entries behind a sequence of references hold.
pub open spec fn entry_ref_views(v: Seq<&FoodEntry>) -> Seq<FoodEntryView> {
    Seq::new(v.len(), |i: int| v[i]@)
}

/// What a sequence of commands holds.
pub open spec fn command_views(v: Seq<CommandType>) -> Seq<CommandView> {
    Seq::new(v.len(), |i: int| v[i]@)
}

/// The `(food id, servings)` pairs of a sequence of entries.
pub open spec fn entry_portions(entries: Seq<FoodEntryView>) -> Seq<(Seq<char>, u32)> {
    Seq::new(entries.len(), |i: int| (entries[i].food_id, entries[i].servings))
}

impl View for Day {
    type V = DayView;

    closed spec fn view(&self) -> DayView {
        DayView { date: self.date@, entries: entry_views(self.entries@) }
    }
}

spec fn day_views(v: Seq<Day>) -> Seq<DayView> {
    Seq::new(v.len(), |i: int| v[i]@)
}

/// The entries of a day, each with the day's date.
pub open spec fn dated(day: DayView) -> Seq<(Seq<char>, FoodEntryView)> {
    Seq::new(day.entries.len(), |i: int| (day.date, day.entries[i]))
}

/// The entries of the days, each with its date, day after day.
pub open spec fn all_dated(days: Seq<DayView>) -> Seq<(Seq<char>, FoodEntryView)>
    decreases days.len(),
{
    if days.len() == 0 {
        Seq::empty()
    } else {
        all_dated(days.drop_last()) + dated(days.last())
    }
}

/// What a sequence of references to dates and entries holds.
pub open spec fn dated_ref_views(v: Seq<(&String, &FoodEntry)>) -> Seq<(Seq<char>, FoodEntryView)> {
    Seq::new(v.len(), |i: int| (v[i].0@, v[i].1@))
}

/// The dates of the days, in order.
pub open spec fn dates_of(days: Seq<DayView>) -> Seq<Seq<char>> {
    Seq::new(days.len(), |i: int| days[i].date)
}

/// The entries that the days hold for a date; none for a date that is not
/// among them.
pub open spec fn entries_in(days: Seq<DayView>, date: Seq<char>) -> Seq<FoodEntryView> {
    match find(dates_of(days), date) {
        Some(i) => days[i].entries,
        None => Seq::empty(),
    }
}

/// The days after the entries of `date` are set to `entries`.
pub open spec fn with_entries_in(
    days: Seq<DayView>,
    date: Seq<char>,
    entries: Seq<FoodEntryView>,
) -> Seq<DayView> {
    match find(dates_of(days), date) {
        Some(i) => days.update(i, DayView { date, entries }),
        None => days.push(DayView { date, entries }),
    }
}

/// By how much undoing a command changes the number of entries of `date`:
/// an addition made on `date` loses one, a deletion gets one back.
pub open spec fn weight(command: CommandView, date: Seq<char>) -> int {
    match command {
        CommandView::AddFood(on, _) => if on == date {
            -1
        } else {
            0
        },
        CommandView::DeleteFood(on, _) => if on == date {
            1
        } else {
            0
        },
    }
}

/// By how much undoing all of `commands` changes the number of entries of
/// `date`.
pub open spec fn balance(commands: Seq<CommandView>, date: Seq<char>) -> int
    decreases commands.len(),
{
    if commands.len() == 0 {
        0
    } else {
        balance(commands.drop_last(), date) + weight(commands.last(), date)
    }
}

/// The state of a ledger: the dates that were ever written to, each with its
/// entries in logging order, and the commands not yet undone, oldest first.
pub struct DailyLogView {
    pub days: Seq<DayView>,
    pub undo_stack: Seq<CommandView>,
}

impl DailyLogView {
    /// The dates of the ledger, in the order in which they were first written.
    pub open spec fn dates(self) -> Seq<Seq<char>> {
        dates_of(self.days)
    }

    /// The entries of a date, in logging order; none for a date never written.
    pub open spec fn entries_for(self, date: Seq<char>) -> Seq<FoodEntryView> {
        entries_in(self.days, date)
    }

    /// The days after the entries of `date` are set to `entries`: a date that
    /// was written before stays where it is, a new one becomes the last day.
    pub open spec fn with_entries(self, date: Seq<char>, entries: Seq<FoodEntryView>) -> Seq<
        DayView,
    > {
        with_entries_in(self.days, date, entries)
    }

    /// The ledger after `entry` is appended to `date` without a command: an
    /// entry that comes from storage.
    pub open spec fn restored(self, date: Seq<char>, entry: FoodEntryView) -> DailyLogView {
        DailyLogView {
            days: self.with_entries(date, self.entries_for(date).push(entry)),
            undo_stack: self.undo_stack,
        }
    }

    /// The ledger after `entry` is logged on `date`.
    pub open spec fn logged(self, date: Seq<char>, entry: FoodEntryView) -> DailyLogView {
        DailyLogView {
            days: self.with_entries(date, self.entries_for(date).push(entry)),
            undo_stack: self.undo_stack.push(CommandView::AddFood(date, entry)),
        }
    }

    /// Whether `date` has an entry at `index`.
    pub open spec fn can_delete(self, date: Seq<char>, index: int) -> bool {
        0 <= index < self.entries_for(date).len()
    }

    /// The ledger after the entry at `index` of `date` is deleted; unchanged
    /// where there is no such entry.
    pub open spec fn deleted(self, date: Seq<char>, index: int) -> DailyLogView {
        if self.can_delete(date, index) {
            DailyLogView {
                days: self.with_entries(date, self.entries_for(date).remove(index)),
                undo_stack: self.undo_stack.push(
                    CommandView::DeleteFood(date, self.entries_for(date)[index]),
                ),
            }
        } else {
            self
        }
    }

    /// Whether `undo` has something to take back: a command, and, for an
    /// addition, an entry on the command's date.
    pub open spec fn can_undo(self) -> bool {
        self.undo_stack.len() > 0 && match self.undo_stack.last() {
            CommandView::AddFood(date, _) => self.entries_for(date).len() > 0,
            CommandView::DeleteFood(_, _) => true,
        }
    }

    /// The ledger after the latest command is taken back. An addition loses
    /// the last entry of its date, whichever that is; a deletion gets its
    /// entry back at the end of its date. The command is gone either way.
    pub open spec fn undone(self) -> DailyLogView {
        if self.undo_stack.len() == 0 {
            self
        } else {
            match self.undo_stack.last() {
                CommandView::AddFood(date, _) => DailyLogView {
                    days: if self.entries_for(date).len() > 0 {
                        self.with_entries(date, self.entries_for(date).drop_last())
                    } else {
                        self.days
                    },
                    undo_stack: self.undo_stack.drop_last(),
                },
                CommandView::DeleteFood(date, entry) => DailyLogView {
                    days: self.with_entries(date, self.entries_for(date).push(entry)),
                    undo_stack: self.undo_stack.drop_last(),
                },
            }
        }
    }

    /// Whether the undo stack is covered by the entries: undoing the latest
    /// commands, however many, never asks for more entries of a date than the
    /// date has. A ledger stays so under every operation on it.
    pub open spec fn balanced(self) -> bool {
        forall|k: int, date: Seq<char>|
            0 <= k <= self.undo_stack.len() ==> 0 <= self.entries_for(date).len() + #[trigger] balance(
                self.undo_stack.skip(k),
                date,
            )
    }

    /// What holds of every ledger: no date occurs twice, and the undo stack
    /// is covered by the entries.
    pub open spec fn consistent(self) -> bool {
        distinct(self.dates()) && self.balanced()
    }

    /// Every entry of the ledger with its date: date by date in the order in
    /// which the dates were first written, each date's entries in logging order.
    pub open spec fn all_entries(self) -> Seq<(Seq<char>, FoodEntryView)> {
        all_dated(self.days)
    }

    /// The calories of a date: the sum over its entries of the calorie value
    /// that `foods` stores for the entry's food, times the servings.
    pub open spec fn total_for(self, date: Seq<char>, foods: Seq<FoodView>) -> int {
        portions_total(entry_portions(self.entries_for(date)), foods)
    }
}

/// The daily ledger. It is consistent at all times: no date occurs twice
/// among its days, and its undo stack is covered by its entries.
pub struct DailyLog {
    days: Vec<Day>,
    undo_stack: Vec<CommandType>,
}

impl View for DailyLog {
    type V = DailyLogView;

    closed spec fn view(&self) -> DailyLogView {
        log_of(self.days@, self.undo_stack@)
    }
}

/// The state that days and commands make up.
spec fn log_of(days: Seq<Day>, commands: Seq<CommandType>) -> DailyLogView {
    DailyLogView { days: day_views(days), undo_stack: command_views(commands) }
}

/// The position of the day with the given date.
fn position_in(days: &Vec<Day>, date: &str) -> (r: Option<usize>)
    requires
        distinct(dates_of(day_views(days@))),
    ensures
        match r {
            Some(i) => find(dates_of(day_views(days@)), date@) == Some(i as int) && i < days@.len(),
            None => find(dates_of(day_views(days@)), date@) is None,
        },
{
    let ghost dates = dates_of(day_views(days@));
    let mut i: usize = 0;
    while i < days.len()
        invariant
            i <= days.len(),
            dates == dates_of(day_views(days@)),
            distinct(dates),
            forall|k: int| 0 <= k < i ==> #[trigger] dates[k] != date@,
        decreases days.len() - i,
    {
        if str_eq(days[i].date.as_str(), date) {
            proof {
                lemma_find_at(dates, date@, i as int);
            }
            return Some(i);
        }
        i += 1;
    }
    None
}

/// Appends `entry` to the entries of `date`, which become the last day where
/// the date is new.
fn append_to(days: &mut Vec<Day>, date: &str, entry: FoodEntry)
    requires
        distinct(dates_of(day_views(old(days)@))),
    ensures
        day_views(final(days)@) == with_entries_in(
            day_views(old(days)@),
            date@,
            entries_in(day_views(old(days)@), date@).push(entry@),
        ),
{
    let ghost before = days@;
    match position_in(days, date) {
        Some(i) => {
            days[i].entries.push(entry);
            assert(days@.len() == before.len());
            assert(days@[i as int].date == before[i as int].date);
            assert(days@[i as int].entries@ == before[i as int].entries@.push(entry));
            assert(forall|k: int| 0 <= k < before.len() && k != i ==> days@[k] == before[k]);
            assert(entry_views(days@[i as int].entries@) =~= entry_views(
                before[i as int].entries@,
            ).push(entry@));
            assert(day_views(days@) =~= day_views(before).update(
                i as int,
                DayView {
                    date: date@,
                    entries: entries_in(day_views(before), date@).push(entry@),
                },
            ));
        },
        None => {
            let mut entries: Vec<FoodEntry> = Vec::new();
            entries.push(entry);
            assert(entry_views(entries@) =~= Seq::<FoodEntryView>::empty().push(entry@));
            days.push(Day { date: date.to_owned(), entries });
            assert(day_views(days@) =~= day_views(before).push(
                DayView {
                    date: date@,
                    entries: entries_in(day_views(before), date@).push(entry@),
                },
            ));
        },
    }
}

impl DailyLog {
    #[verifier::type_invariant]
    spec fn is_consistent(self) -> bool {
        self@.consistent()
    }

    /// An empty ledger with nothing to undo.
    pub fn new() -> (r: DailyLog)
        ensures
            r@.days == Seq::<DayView>::empty(),
            r@.undo_stack == Seq::<CommandView>::empty(),
            r@.consistent(),
    {
        let days: Vec<Day> = Vec::new();
        let undo_stack: Vec<CommandType> = Vec::new();
        proof {
            assert(day_views(days@) =~= Seq::<DayView>::empty());
            assert(command_views(undo_stack@) =~= Seq::<CommandView>::empty());
            law_nothing_to_undo_is_balanced(log_of(days@, undo_stack@));
        }
        DailyLog { days, undo_stack }
    }

    /// Takes the days and the commands out of the ledger, which is left empty.
    fn take_apart(&mut self) -> (r: (Vec<Day>, Vec<CommandType>))
        ensures
            old(self)@.consistent(),
            old(self)@ == log_of(r.0@, r.1@),
    {
        proof {
            use_type_invariant(&*self);
        }
        let mut taken = DailyLog::new();
        std::mem::swap(self, &mut taken);
        let DailyLog { days, undo_stack } = taken;
        (days, undo_stack)
    }

    /// Makes the ledger hold the given days and commands.
    fn put_together(&mut self, days: Vec<Day>, undo_stack: Vec<CommandType>)
        requires
            log_of(days@, undo_stack@).consistent(),
        ensures
            final(self)@ == log_of(days@, undo_stack@),
            final(self)@.consistent(),
    {
        *self = DailyLog { days, undo_stack };
    }

    /// Logs so many servings of a food on a date, at the time the system
    /// clock reads, and records the addition for `undo`.
    pub fn add_food(&mut self, date: &str, food_id: &str, servings: u32)
        ensures
            exists|entry: FoodEntryView|
                entry.food_id == food_id@ && entry.servings == servings && final(self)@
                    == #[trigger] old(self)@.logged(date@, entry),
            final(self)@.consistent(),
    {
        let entry = FoodEntry::new(food_id, servings);
        let ghost logged = entry@;
        self.add_entry(date, entry);
        assert(self@ == old(self)@.logged(date@, logged));
    }

    /// Logs a ready-made entry on a date and records the addition for `undo`.
    pub fn add_entry(&mut self, date: &str, entry: FoodEntry)
        ensures
            final(self)@ == old(self)@.logged(date@, entry@),
            final(self)@.consistent(),
    {
        let (mut days, mut undo_stack) = self.take_apart();
        let ghost commands = undo_stack@;
        undo_stack.push(CommandType::AddFood(date.to_owned(), entry.clone()));
        append_to(&mut days, date, entry);
        proof {
            assert(command_views(undo_stack@) =~= command_views(commands).push(
                CommandView::AddFood(date@, entry@),
            ));
            law_logging_keeps_consistent(old(self)@, date@, entry@);
        }
        self.put_together(days, undo_stack);
    }

    /// Appends an entry that comes from storage to a date. Nothing is recorded:
    /// `undo` does not take it back.
    pub fn load_entry(&mut self, date: &str, entry: FoodEntry)
        ensures
            final(self)@ == old(self)@.restored(date@, entry@),
            final(self)@.consistent(),
    {
        let (mut days, undo_stack) = self.take_apart();
        append_to(&mut days, date, entry);
        proof {
            law_restoring_keeps_consistent(old(self)@, date@, entry@);
        }
        self.put_together(days, undo_stack);
    }

    /// Deletes the entry at `index` (from 0) of a date and records the
    /// deletion for `undo`. Returns `false`, and changes nothing, where the
    /// date has no entry at `index`.
    pub fn delete_food(&mut self, date: &str, index: usize) -> (r: bool)
        ensures
            r == old(self)@.can_delete(date@, index as int),
            final(self)@ == old(self)@.deleted(date@, index as int),
            final(self)@.consistent(),
    {
        let (mut days, mut undo_stack) = self.take_apart();
        let ghost before = days@;
        let ghost commands = undo_stack@;
        let mut deleted = false;
        match position_in(&days, date) {
            Some(i) => {
                if index < days[i].entries.len() {
                    let entry = days[i].entries.remove(index);
                    assert(days@.len() == before.len());
                    assert(days@[i as int].date == before[i as int].date);
                    assert(days@[i as int].entries@ == before[i as int].entries@.remove(
                        index as int,
                    ));
                    assert(forall|k: int|
                        0 <= k < before.len() && k != i ==> days@[k] == before[k]);
                    assert(entry_views(days@[i as int].entries@) =~= entry_views(
                        before[i as int].entries@,
                    ).remove(index as int));
                    assert(day_views(days@) =~= old(self)@.days.update(
                        i as int,
                        DayView {
                            date: date@,
                            entries: old(self)@.entries_for(date@).remove(index as int),
                        },
                    ));
                    undo_stack.push(CommandType::DeleteFood(date.to_owned(), entry));
                    assert(command_views(undo_stack@) =~= command_views(commands).push(
                        CommandView::DeleteFood(
                            date@,
                            old(self)@.entries_for(date@)[index as int],
                        ),
                    ));
                    deleted = true;
                }
            },
            None => {},
        }
        proof {
            law_deleting_keeps_consistent(old(self)@, date@, index as int);
        }
        self.put_together(days, undo_stack);
        deleted
    }

    /// Takes back the latest command, whatever date it was made on. Undoing an
    /// addition removes the last entry of the command's date; undoing a
    /// deletion appends the deleted entry to the end of its date. Returns
    /// `false`, and changes nothing, where there is no command.
    pub fn undo(&mut self) -> (r: bool)
        ensures
            r == (old(self)@.undo_stack.len() > 0),
            final(self)@ == old(self)@.undone(),
            final(self)@.consistent(),
    {
        let (mut days, mut undo_stack) = self.take_apart();
        let ghost before = days@;
        let ghost commands = undo_stack@;
        proof {
            law_undo_succeeds_unless_stack_is_empty(old(self)@);
        }
        let command = undo_stack.pop();
        assert(command_views(undo_stack@) =~= if commands.len() > 0 {
            command_views(commands).drop_last()
        } else {
            command_views(commands)
        });
        let undone = match command {
            None => false,
            Some(CommandType::AddFood(date, _)) => {
                assert(old(self)@.undo_stack.last() is AddFood);
                assert(old(self)@.undo_stack.last()->AddFood_0 == date@);
                match position_in(&days, date.as_str()) {
                    Some(i) => {
                        if days[i].entries.len() > 0 {
                            let _ = days[i].entries.pop();
                            assert(days@.len() == before.len());
                            assert(days@[i as int].date == before[i as int].date);
                            assert(days@[i as int].entries@
                                == before[i as int].entries@.drop_last());
                            assert(forall|k: int|
                                0 <= k < before.len() && k != i ==> days@[k] == before[k]);
                            assert(entry_views(days@[i as int].entries@) =~= entry_views(
                                before[i as int].entries@,
                            ).drop_last());
                            assert(day_views(days@) =~= old(self)@.days.update(
                                i as int,
                                DayView {
                                    date: date@,
                                    entries: old(self)@.entries_for(date@).drop_last(),
                                },
                            ));
                            true
                        } else {
                            false
                        }
                    },
                    None => false,
                }
            },
            Some(CommandType::DeleteFood(date, entry)) => {
                assert(old(self)@.undo_stack.last() == CommandView::DeleteFood(date@, entry@));
                append_to(&mut days, date.as_str(), entry);
                true
            },
        };
        self.put_together(days, undo_stack);
        undone
    }

    /// The entries of a date, in logging order; none for a date never written.
    pub fn get_entries_for_date(&self, date: &str) -> (r: Vec<&FoodEntry>)
        ensures
            entry_ref_views(r@) == self@.entries_for(date@),
    {
        proof {
            use_type_invariant(self);
        }
        let mut found: Vec<&FoodEntry> = Vec::new();
        match position_in(&self.days, date) {
            Some(d) => {
                let entries = &self.days[d].entries;
                let mut i: usize = 0;
                while i < entries.len()
                    invariant
                        i <= entries.len(),
                        found@.len() == i,
                        forall|k: int| 0 <= k < i ==> (#[trigger] found@[k])@ == entries@[k]@,
                    decreases entries.len() - i,
                {
                    found.push(&entries[i]);
                    i += 1;
                }
                assert(entry_ref_views(found@) =~= entry_views(entries@));
            },
            None => {
                assert(entry_ref_views(found@) =~= Seq::<FoodEntryView>::empty());
            },
        }
        found
    }

    /// The calories eaten on a date: the total of its entries against the
    /// calorie values that `database` stores; a food that the catalog lacks
    /// counts as 0.
    pub fn calculate_calories_for_date(&self, date: &str, database: &FoodDatabase) -> (r: u32)
        ensures
            r == wrapped(self@.total_for(date@, database@)),
    {
        proof {
            use_type_invariant(self);
        }
        let mut total: u32 = 0;
        match position_in(&self.days, date) {
            Some(d) => {
                let entries = &self.days[d].entries;
                let ghost all = entry_portions(entry_views(entries@));
                assert(all.take(0) =~= Seq::<(Seq<char>, u32)>::empty());
                let mut i: usize = 0;
                while i < entries.len()
                    invariant
                        i <= entries.len(),
                        all == entry_portions(entry_views(entries@)),
                        total == wrapped(portions_total(all.take(i as int), database@)),
                    decreases entries.len() - i,
                {
                    let entry = &entries[i];
                    let calories = match database.get_food(entry.food_id.as_str()) {
                        Some(food) => food.calories_per_serving,
                        None => 0,
                    };
                    proof {
                        let before = portions_total(all.take(i as int), database@);
                        let step = calories_of(database@, all[i as int].0) * all[i as int].1;
                        assert(all.take(i + 1).drop_last() =~= all.take(i as int));
                        assert(portions_total(all.take(i + 1), database@) == before + step);
                        assert(step == calories * entry.servings);
                        lemma_add_mod_noop(before, step, 0x1_0000_0000);
                    }
                    total = total.wrapping_add(calories.wrapping_mul(entry.servings));
                    i += 1;
                }
                assert(all.take(entries@.len() as int) =~= all);
            },
            None => {
                assert(entry_portions(self@.entries_for(date@)) =~= Seq::<
                    (Seq<char>, u32),
                >::empty());
            },
        }
        total
    }

    /// Every entry of the ledger with its date, for a store to walk through.
    pub fn all_entries(&self) -> (r: Vec<(&String, &FoodEntry)>)
        ensures
            dated_ref_views(r@) == self@.all_entries(),
            self@.consistent(),
    {
        proof {
            use_type_invariant(self);
        }
        let mut out: Vec<(&String, &FoodEntry)> = Vec::new();
        let ghost days = self@.days;
        let mut d: usize = 0;
        assert(days.take(0) =~= Seq::<DayView>::empty());
        assert(dated_ref_views(out@) =~= all_dated(days.take(0)));
        while d < self.days.len()
            invariant
                d <= self.days.len(),
                days == self@.days,
                dated_ref_views(out@) == all_dated(days.take(d as int)),
            decreases self.days.len() - d,
        {
            let day = &self.days[d];
            let ghost done = all_dated(days.take(d as int));
            let ghost today = dated(days[d as int]);
            let mut i: usize = 0;
            assert(dated_ref_views(out@) =~= done + today.take(0));
            while i < day.entries.len()
                invariant
                    i <= day.entries.len(),
                    today == dated(day@),
                    dated_ref_views(out@) == done + today.take(i as int),
                decreases day.entries.len() - i,
            {
                let ghost before = dated_ref_views(out@);
                out.push((&day.date, &day.entries[i]));
                assert(dated_ref_views(out@) =~= before.push(today[i as int]));
                assert(done + today.take(i + 1) =~= (done + today.take(i as int)).push(
                    today[i as int],
                ));
                i += 1;
            }
            proof {
                assert(today.take(day.entries@.len() as int) =~= today);
                assert(days.take(d + 1).drop_last() =~= days.take(d as int));
                assert(days.take(d + 1).last() == days[d as int]);
            }
            d += 1;
        }
        assert(days.take(self.days@.len() as int) =~= days);
        out
    }
}

} // verus!
