//! What holds of the catalog and of the ledger across calls, proved over the
//! models that the functions' contracts are stated in.

use vstd::prelude::*;
use crate::catalog::{
    calories_of, ids, lookup, portions_total, resolved, resolved_food, search, with_food, wrapped,
};
use crate::food::{hits, keywords_match, FoodView};
use crate::keys::{distinct, find, lemma_find_at, lemma_find_is_position, lemma_push_distinct};
use crate::ledger::{balance, weight, CommandView, DailyLogView, FoodEntryView};
use crate::storage::{
    decoded_component, decoded_components, decoded_dated, decoded_entry, decoded_food,
    encoded_components, encoded_content, encoded_dated, encoded_entry, encoded_food,
};
use crate::text::{
    decimal_text, digit_char, digits_value, is_digit, is_substring, joined, lowercase,
    lowercase_all, parsed_unsigned, split_text,
};

verus! {

/// After a food is added it is found under its id, whether or not the id was
/// taken before; every other id finds what it found before, and no id occurs
/// twice.
pub proof fn law_added_food_is_found(foods: Seq<FoodView>, food: FoodView, id: Seq<char>)
    requires
        distinct(ids(foods)),
    ensures
        distinct(ids(with_food(foods, food))),
        lookup(with_food(foods, food), id) == if id == food.id {
            Some(food)
        } else {
            lookup(foods, id)
        },
{
    let after = with_food(foods, food);
    lemma_find_is_position(ids(foods), food.id);
    lemma_find_is_position(ids(foods), id);
    lemma_find_is_position(ids(after), id);
    match find(ids(foods), food.id) {
        Some(i) => {
            assert(ids(after) =~= ids(foods));
            if id == food.id {
                lemma_find_at(ids(after), id, i);
            } else if find(ids(foods), id) is Some {
                lemma_find_at(ids(after), id, find(ids(foods), id)->0);
            }
        },
        None => {
            assert(ids(after) =~= ids(foods).push(food.id));
            lemma_push_distinct(ids(foods), food.id);
            if id == food.id {
                lemma_find_at(ids(after), id, foods.len() as int);
            } else if find(ids(foods), id) is Some {
                let k = find(ids(foods), id)->0;
                assert(ids(after)[k] == id);
                lemma_find_at(ids(after), id, k);
            } else {
                assert(forall|k: int| 0 <= k < ids(after).len() ==> #[trigger] ids(after)[k] != id);
            }
        },
    }
}

/// A resolution pass changes no id, so a food is found after it exactly where
/// it was found before, resolved against the catalog before the pass.
pub proof fn lemma_lookup_resolved(foods: Seq<FoodView>, id: Seq<char>)
    ensures
        ids(resolved(foods)) == ids(foods),
        lookup(resolved(foods), id) == match lookup(foods, id) {
            Some(food) => Some(resolved_food(food, foods)),
            None => None,
        },
{
    assert(ids(resolved(foods)) =~= ids(foods));
    lemma_find_is_position(ids(foods), id);
}

/// The total of a list of portions depends on the catalog only through the
/// calorie values that it stores for the foods of the list.
pub proof fn lemma_total_depends_on_components(
    items: Seq<(Seq<char>, u32)>,
    before: Seq<FoodView>,
    after: Seq<FoodView>,
)
    requires
        forall|k: int|
            0 <= k < items.len() ==> calories_of(after, (#[trigger] items[k]).0) == calories_of(
                before,
                items[k].0,
            ),
    ensures
        portions_total(items, after) == portions_total(items, before),
    decreases items.len(),
{
    if items.len() > 0 {
        let rest = items.drop_last();
        assert forall|k: int| 0 <= k < rest.len() implies calories_of(
            after,
            (#[trigger] rest[k]).0,
        ) == calories_of(before, rest[k].0) by {
            assert(rest[k] == items[k]);
        }
        lemma_total_depends_on_components(rest, before, after);
        assert(items.last() == items[items.len() - 1]);
    }
}

/// A resolution pass leaves every basic food as it is: its calorie value, and
/// all else that it holds.
pub proof fn law_resolution_keeps_basic_foods(foods: Seq<FoodView>, id: Seq<char>)
    requires
        lookup(foods, id) is Some,
        !lookup(foods, id)->0.is_composite,
    ensures
        lookup(resolved(foods), id) == lookup(foods, id),
        calories_of(resolved(foods), id) == calories_of(foods, id),
{
    lemma_lookup_resolved(foods, id);
}

/// A resolution pass changes nothing of a food but the calorie value of a
/// composite one, and neither adds nor removes a food.
pub proof fn law_resolution_changes_calories_only(foods: Seq<FoodView>, i: int)
    requires
        0 <= i < foods.len(),
    ensures
        resolved(foods).len() == foods.len(),
        resolved(foods)[i] == (FoodView {
            calories_per_serving: resolved(foods)[i].calories_per_serving,
            ..foods[i]
        }),
        !foods[i].is_composite ==> resolved(foods)[i] == foods[i],
{
}

/// Whether each component of `food` is a basic food of the catalog or is
/// missing from it.
pub open spec fn made_of_basic_foods(food: FoodView, foods: Seq<FoodView>) -> bool {
    forall|k: int|
        0 <= k < food.components.len() ==> match lookup(foods, (#[trigger] food.components[k]).0) {
            Some(component) => !component.is_composite,
            None => true,
        }
}

/// After one resolution pass, a composite food whose components are all basic
/// foods holds the sum of its components' calorie values times their
/// servings, as the catalog stores them after the pass, provided that sum
/// fits in 32 bits. A component that the catalog lacks counts as 0.
pub proof fn law_one_pass_resolves_composites_of_basic_foods(foods: Seq<FoodView>, id: Seq<char>)
    requires
        lookup(foods, id) is Some,
        lookup(foods, id)->0.is_composite,
        made_of_basic_foods(lookup(foods, id)->0, foods),
        portions_total(lookup(foods, id)->0.components, foods) <= u32::MAX,
    ensures
        lookup(resolved(foods), id) is Some,
        lookup(resolved(foods), id)->0.components == lookup(foods, id)->0.components,
        calories_of(resolved(foods), id) == portions_total(
            lookup(foods, id)->0.components,
            resolved(foods),
        ),
        calories_of(resolved(foods), id) == portions_total(
            lookup(foods, id)->0.components,
            foods,
        ),
{
    let food = lookup(foods, id)->0;
    lemma_lookup_resolved(foods, id);
    lemma_total_is_not_negative(food.components, foods);
    assert forall|k: int| 0 <= k < food.components.len() implies calories_of(
        resolved(foods),
        (#[trigger] food.components[k]).0,
    ) == calories_of(foods, food.components[k].0) by {
        lemma_lookup_resolved(foods, food.components[k].0);
    }
    lemma_total_depends_on_components(food.components, foods, resolved(foods));
}

/// A total of portions is never negative.
pub proof fn lemma_total_is_not_negative(items: Seq<(Seq<char>, u32)>, foods: Seq<FoodView>)
    ensures
        0 <= portions_total(items, foods),
    decreases items.len(),
{
    if items.len() > 0 {
        lemma_total_is_not_negative(items.drop_last(), foods);
        assert(0 <= calories_of(foods, items.last().0) * items.last().1) by (nonlinear_arith)
            requires
                0 <= calories_of(foods, items.last().0),
                0 <= items.last().1,
        ;
    }
}

/// The total of a single portion.
pub proof fn lemma_total_of_one(id: Seq<char>, servings: u32, foods: Seq<FoodView>)
    ensures
        portions_total(seq![(id, servings)], foods) == calories_of(foods, id) * servings,
{
    let items = seq![(id, servings)];
    assert(items.drop_last() =~= Seq::<(Seq<char>, u32)>::empty());
    assert(portions_total(items.drop_last(), foods) == 0);
    assert(items.last() == (id, servings));
}

/// A chain of three foods: `top` is made of `top_servings` of `middle`, `middle`
/// of `middle_servings` of the basic food `base`. One resolution pass gives
/// `middle` its value but computes `top` from the value that `middle` had
/// before the pass; the second pass gives `top` its value too.
pub proof fn law_chain_settles_in_two_passes(
    foods: Seq<FoodView>,
    top: Seq<char>,
    middle: Seq<char>,
    base: Seq<char>,
    top_servings: u32,
    middle_servings: u32,
)
    requires
        lookup(foods, base) is Some,
        !lookup(foods, base)->0.is_composite,
        lookup(foods, middle) is Some,
        lookup(foods, middle)->0.is_composite,
        lookup(foods, middle)->0.components == seq![(base, middle_servings)],
        lookup(foods, top) is Some,
        lookup(foods, top)->0.is_composite,
        lookup(foods, top)->0.components == seq![(middle, top_servings)],
    ensures
        calories_of(resolved(foods), base) == calories_of(foods, base),
        calories_of(resolved(foods), middle) == wrapped(
            calories_of(foods, base) * middle_servings,
        ),
        calories_of(resolved(foods), top) == wrapped(calories_of(foods, middle) * top_servings),
        calories_of(resolved(resolved(foods)), middle) == calories_of(resolved(foods), middle),
        calories_of(resolved(resolved(foods)), top) == wrapped(
            calories_of(resolved(foods), middle) * top_servings,
        ),
        calories_of(foods, base) * middle_servings * top_servings <= u32::MAX ==> calories_of(
            resolved(resolved(foods)),
            top,
        ) == calories_of(foods, base) * middle_servings * top_servings,
{
    let once = resolved(foods);
    let twice = resolved(once);
    lemma_lookup_resolved(foods, base);
    lemma_lookup_resolved(foods, middle);
    lemma_lookup_resolved(foods, top);
    lemma_lookup_resolved(once, base);
    lemma_lookup_resolved(once, middle);
    lemma_lookup_resolved(once, top);
    lemma_total_of_one(base, middle_servings, foods);
    lemma_total_of_one(middle, top_servings, foods);
    lemma_total_of_one(base, middle_servings, once);
    lemma_total_of_one(middle, top_servings, once);
    let c = calories_of(foods, base);
    if c * middle_servings * top_servings <= u32::MAX {
        assert(0 <= c * middle_servings) by (nonlinear_arith)
            requires
                0 <= c,
                0 <= middle_servings,
        ;
        if top_servings == 0 {
            assert(calories_of(once, middle) * 0 == 0);
            assert(c * middle_servings * 0 == 0) by (nonlinear_arith);
        } else {
            assert(c * middle_servings <= c * middle_servings * top_servings) by (nonlinear_arith)
                requires
                    0 <= c * middle_servings,
                    1 <= top_servings,
            ;
        }
    }
}

/// An empty list of search keywords finds every food of the catalog.
pub proof fn law_empty_search_finds_all(foods: Seq<FoodView>, match_all: bool)
    ensures
        search(foods, Seq::<Seq<char>>::empty(), match_all) == foods,
    decreases foods.len(),
{
    let none = Seq::<Seq<char>>::empty();
    let wanted = |f: FoodView| keywords_match(f.keywords, none, match_all);
    reveal(Seq::filter);
    if foods.len() > 0 {
        law_empty_search_finds_all(foods.drop_last(), match_all);
        assert(lowercase_all(none).len() == 0);
        assert(wanted(foods.last()));
        assert(foods.drop_last().push(foods.last()) =~= foods);
    } else {
        assert(foods.filter(wanted) =~= foods);
    }
}

/// Whether one of `keywords` holds `query` as a substring, both in lowercase.
pub open spec fn mentions(keywords: Seq<Seq<char>>, query: Seq<char>) -> bool {
    exists|j: int|
        0 <= j < keywords.len() && is_substring(lowercase(query), lowercase(#[trigger] keywords[j]))
}

/// A search for a single keyword finds exactly the foods of which one keyword
/// holds it as a substring, case ignored, whether or not all keywords are
/// asked to match.
pub proof fn law_single_keyword_search(foods: Seq<FoodView>, query: Seq<char>, match_all: bool)
    ensures
        search(foods, seq![query], match_all) == foods.filter(
            |f: FoodView| mentions(f.keywords, query),
        ),
        forall|i: int|
            0 <= i < foods.len() && mentions((#[trigger] foods[i]).keywords, query) ==> search(
                foods,
                seq![query],
                match_all,
            ).contains(foods[i]),
        forall|f: FoodView| #[trigger]
            search(foods, seq![query], match_all).contains(f) ==> foods.contains(f) && mentions(
                f.keywords,
                query,
            ),
{
    let queries = seq![query];
    let wanted = |f: FoodView| keywords_match(f.keywords, queries, match_all);
    let plain = |f: FoodView| mentions(f.keywords, query);
    assert forall|f: FoodView| #[trigger] wanted(f) == plain(f) by {
        lemma_single_keyword_match(f.keywords, query, match_all);
    }
    assert(wanted =~= plain);
    let found = foods.filter(plain);
    assert forall|i: int| 0 <= i < foods.len() && mentions(
        (#[trigger] foods[i]).keywords,
        query,
    ) implies found.contains(foods[i]) by {
        foods.lemma_filter_contains(plain, i);
    }
    assert forall|f: FoodView| #[trigger] found.contains(f) implies foods.contains(f) && mentions(
        f.keywords,
        query,
    ) by {
        let k = choose|k: int| 0 <= k < found.len() && found[k] == f;
        foods.lemma_filter_pred(plain, k);
        foods.lemma_filter_contains_rev(plain, f);
    }
}

/// Matching a single keyword is the same for "all" and "any": one of the
/// food's keywords holds it as a substring, case ignored.
pub proof fn lemma_single_keyword_match(keywords: Seq<Seq<char>>, query: Seq<char>, match_all: bool)
    ensures
        keywords_match(keywords, seq![query], match_all) == mentions(keywords, query),
{
    let stored = lowercase_all(keywords);
    let queries = lowercase_all(seq![query]);
    assert(queries.len() == 1);
    assert(queries[0] == lowercase(query));
    if mentions(keywords, query) {
        let j = choose|j: int|
            0 <= j < keywords.len() && is_substring(
                lowercase(query),
                lowercase(#[trigger] keywords[j]),
            );
        assert(is_substring(lowercase(query), stored[j]));
        assert(hits(stored, queries[0]));
    }
    if hits(stored, lowercase(query)) {
        let j = choose|j: int|
            0 <= j < stored.len() && is_substring(lowercase(query), #[trigger] stored[j]);
        assert(stored[j] == lowercase(keywords[j]));
        assert(mentions(keywords, query));
    }
}

/// What setting the entries of one date does to the ledger: that date has the
/// new entries, every other date has the entries it had, and no date occurs
/// twice.
pub proof fn lemma_with_entries(
    log: DailyLogView,
    date: Seq<char>,
    entries: Seq<FoodEntryView>,
    stack: Seq<CommandView>,
)
    requires
        distinct(log.dates()),
    ensures
        distinct((DailyLogView { days: log.with_entries(date, entries), undo_stack: stack }).dates()),
        forall|d: Seq<char>|
            (#[trigger] (DailyLogView {
                days: log.with_entries(date, entries),
                undo_stack: stack,
            }).entries_for(d)) == if d == date {
                entries
            } else {
                log.entries_for(d)
            },
{
    let after = DailyLogView { days: log.with_entries(date, entries), undo_stack: stack };
    lemma_find_is_position(log.dates(), date);
    match find(log.dates(), date) {
        Some(i) => {
            assert(after.dates() =~= log.dates());
        },
        None => {
            assert(after.dates() =~= log.dates().push(date));
            lemma_push_distinct(log.dates(), date);
        },
    }
    assert forall|d: Seq<char>| (#[trigger] after.entries_for(d)) == if d == date {
        entries
    } else {
        log.entries_for(d)
    } by {
        lemma_find_is_position(log.dates(), d);
        lemma_find_is_position(after.dates(), d);
        if d == date {
            match find(log.dates(), date) {
                Some(i) => {
                    lemma_find_at(after.dates(), d, i);
                },
                None => {
                    lemma_find_at(after.dates(), d, log.days.len() as int);
                },
            }
        } else {
            match find(log.dates(), d) {
                Some(k) => {
                    assert(after.dates()[k] == d);
                    lemma_find_at(after.dates(), d, k);
                },
                None => {
                    assert(forall|k: int|
                        0 <= k < after.dates().len() ==> #[trigger] after.dates()[k] != d);
                },
            }
        }
    }
}

/// Undoing right after logging takes the logged entry back: every date has
/// the entries it had before, and the undo stack is what it was.
pub proof fn law_undo_takes_back_logging(log: DailyLogView, date: Seq<char>, entry: FoodEntryView)
    requires
        distinct(log.dates()),
    ensures
        log.logged(date, entry).can_undo(),
        log.logged(date, entry).undone().undo_stack == log.undo_stack,
        forall|d: Seq<char>| #[trigger]
            log.logged(date, entry).undone().entries_for(d) == log.entries_for(d),
{
    let logged = log.logged(date, entry);
    let grown = log.entries_for(date).push(entry);
    lemma_with_entries(log, date, grown, logged.undo_stack);
    assert(logged.entries_for(date) == grown);
    assert(logged.undo_stack.last() == CommandView::AddFood(date, entry));
    assert(logged.undo_stack.drop_last() =~= log.undo_stack);
    assert(grown.drop_last() =~= log.entries_for(date));
    lemma_with_entries(logged, date, grown.drop_last(), log.undo_stack);
    assert forall|d: Seq<char>| #[trigger]
        logged.undone().entries_for(d) == log.entries_for(d) by {
        assert(logged.entries_for(d) == if d == date {
            grown
        } else {
            log.entries_for(d)
        });
    }
}

/// Undoing right after a deletion puts the deleted entry back at the end of
/// its date, not at the index it was deleted from; no other date changes, and
/// the undo stack is what it was before the deletion.
pub proof fn law_undo_reappends_deleted_entry(log: DailyLogView, date: Seq<char>, index: int)
    requires
        distinct(log.dates()),
        log.can_delete(date, index),
    ensures
        log.deleted(date, index).can_undo(),
        log.deleted(date, index).undone().undo_stack == log.undo_stack,
        log.deleted(date, index).undone().entries_for(date) == log.entries_for(date).remove(
            index,
        ).push(log.entries_for(date)[index]),
        forall|d: Seq<char>|
            d != date ==> #[trigger] log.deleted(date, index).undone().entries_for(d)
                == log.entries_for(d),
{
    let deleted = log.deleted(date, index);
    let entry = log.entries_for(date)[index];
    let shorter = log.entries_for(date).remove(index);
    lemma_with_entries(log, date, shorter, deleted.undo_stack);
    assert(deleted.entries_for(date) == shorter);
    assert(deleted.undo_stack.last() == CommandView::DeleteFood(date, entry));
    assert(deleted.undo_stack.drop_last() =~= log.undo_stack);
    lemma_with_entries(deleted, date, shorter.push(entry), log.undo_stack);
    assert forall|d: Seq<char>| d != date implies #[trigger] deleted.undone().entries_for(d)
        == log.entries_for(d) by {
        assert(deleted.entries_for(d) == log.entries_for(d));
    }
}

/// The balance of a stack with one more command on top.
pub proof fn lemma_balance_push(commands: Seq<CommandView>, command: CommandView, date: Seq<char>)
    ensures
        balance(commands.push(command), date) == balance(commands, date) + weight(command, date),
{
    assert(commands.push(command).drop_last() =~= commands);
}

/// A ledger without commands is covered, whatever entries it holds.
pub proof fn law_nothing_to_undo_is_balanced(log: DailyLogView)
    requires
        log.undo_stack.len() == 0,
    ensures
        log.balanced(),
{
    assert forall|k: int, date: Seq<char>| 0 <= k <= log.undo_stack.len() implies 0
        <= log.entries_for(date).len() + #[trigger] balance(log.undo_stack.skip(k), date) by {
        assert(log.undo_stack.skip(k).len() == 0);
    }
}

/// The ledger stays consistent when the entries of a date are replaced and a
/// command is put on the stack that accounts for the change in their number.
pub proof fn lemma_push_keeps_balance(
    log: DailyLogView,
    date: Seq<char>,
    entries: Seq<FoodEntryView>,
    command: CommandView,
)
    requires
        log.consistent(),
        entries.len() + weight(command, date) == log.entries_for(date).len(),
        forall|d: Seq<char>| d != date ==> weight(command, d) == 0,
    ensures
        (DailyLogView {
            days: log.with_entries(date, entries),
            undo_stack: log.undo_stack.push(command),
        }).consistent(),
{
    let stack = log.undo_stack.push(command);
    let after = DailyLogView { days: log.with_entries(date, entries), undo_stack: stack };
    lemma_with_entries(log, date, entries, stack);
    assert forall|k: int, d: Seq<char>| 0 <= k <= stack.len() implies 0 <= after.entries_for(
        d,
    ).len() + #[trigger] balance(stack.skip(k), d) by {
        if k == stack.len() {
            assert(stack.skip(k).len() == 0);
        } else {
            assert(stack.skip(k) =~= log.undo_stack.skip(k).push(command));
            lemma_balance_push(log.undo_stack.skip(k), command, d);
            assert(0 <= log.entries_for(d).len() + balance(log.undo_stack.skip(k), d));
        }
    }
}

/// The ledger stays consistent when the latest command is taken off the
/// stack and the entries of a date are replaced so that their number changes
/// as undoing the command changes it.
pub proof fn lemma_pop_keeps_balance(log: DailyLogView, date: Seq<char>, entries: Seq<FoodEntryView>)
    requires
        log.consistent(),
        log.undo_stack.len() > 0,
        entries.len() == log.entries_for(date).len() + weight(log.undo_stack.last(), date),
        forall|d: Seq<char>| d != date ==> weight(log.undo_stack.last(), d) == 0,
    ensures
        (DailyLogView {
            days: log.with_entries(date, entries),
            undo_stack: log.undo_stack.drop_last(),
        }).consistent(),
{
    let stack = log.undo_stack.drop_last();
    let top = log.undo_stack.last();
    let after = DailyLogView { days: log.with_entries(date, entries), undo_stack: stack };
    lemma_with_entries(log, date, entries, stack);
    assert forall|k: int, d: Seq<char>| 0 <= k <= stack.len() implies 0 <= after.entries_for(
        d,
    ).len() + #[trigger] balance(stack.skip(k), d) by {
        assert(log.undo_stack.skip(k) =~= stack.skip(k).push(top));
        lemma_balance_push(stack.skip(k), top, d);
        assert(0 <= log.entries_for(d).len() + balance(log.undo_stack.skip(k), d));
    }
}

/// Taking in an entry from storage keeps the ledger consistent.
pub proof fn law_restoring_keeps_consistent(log: DailyLogView, date: Seq<char>, entry: FoodEntryView)
    requires
        log.consistent(),
    ensures
        log.restored(date, entry).consistent(),
{
    let after = log.restored(date, entry);
    lemma_with_entries(log, date, log.entries_for(date).push(entry), log.undo_stack);
    assert forall|k: int, d: Seq<char>| 0 <= k <= after.undo_stack.len() implies 0
        <= after.entries_for(d).len() + #[trigger] balance(after.undo_stack.skip(k), d) by {
        assert(0 <= log.entries_for(d).len() + balance(log.undo_stack.skip(k), d));
    }
}

/// Logging an entry keeps the ledger consistent.
pub proof fn law_logging_keeps_consistent(log: DailyLogView, date: Seq<char>, entry: FoodEntryView)
    requires
        log.consistent(),
    ensures
        log.logged(date, entry).consistent(),
{
    lemma_push_keeps_balance(
        log,
        date,
        log.entries_for(date).push(entry),
        CommandView::AddFood(date, entry),
    );
}

/// Deleting an entry keeps the ledger consistent.
pub proof fn law_deleting_keeps_consistent(log: DailyLogView, date: Seq<char>, index: int)
    requires
        log.consistent(),
    ensures
        log.deleted(date, index).consistent(),
{
    if log.can_delete(date, index) {
        lemma_push_keeps_balance(
            log,
            date,
            log.entries_for(date).remove(index),
            CommandView::DeleteFood(date, log.entries_for(date)[index]),
        );
    }
}

/// In a consistent ledger `undo` succeeds exactly when there is a command:
/// the addition on top of the stack always finds an entry to remove. The
/// ledger is consistent after the undo too.
pub proof fn law_undo_succeeds_unless_stack_is_empty(log: DailyLogView)
    requires
        log.consistent(),
    ensures
        log.can_undo() == (log.undo_stack.len() > 0),
        log.undone().consistent(),
{
    if log.undo_stack.len() > 0 {
        let top = log.undo_stack.last();
        let last = log.undo_stack.len() - 1;
        assert(log.undo_stack.skip(last) =~= seq![top]);
        assert(seq![top].drop_last() =~= Seq::<CommandView>::empty());
        match top {
            CommandView::AddFood(date, _) => {
                assert(0 <= log.entries_for(date).len() + balance(log.undo_stack.skip(last), date));
                assert(balance(seq![top], date) == -1) by {
                    lemma_balance_push(Seq::<CommandView>::empty(), top, date);
                    assert(Seq::<CommandView>::empty().push(top) =~= seq![top]);
                }
                lemma_pop_keeps_balance(log, date, log.entries_for(date).drop_last());
            },
            CommandView::DeleteFood(date, entry) => {
                lemma_pop_keeps_balance(log, date, log.entries_for(date).push(entry));
            },
        }
    }
}

/// Undoing an addition removes the last entry of the date that the command
/// was made on, whichever entry that is and whatever was done to other dates
/// since: the date has an entry to remove, and no other date changes.
pub proof fn law_undo_of_addition_is_keyed_to_its_date(log: DailyLogView)
    requires
        log.consistent(),
        log.undo_stack.len() > 0,
        log.undo_stack.last() is AddFood,
    ensures
        log.can_undo(),
        log.entries_for(log.undo_stack.last()->AddFood_0).len() > 0,
        log.undone().undo_stack == log.undo_stack.drop_last(),
        log.undone().entries_for(log.undo_stack.last()->AddFood_0) == log.entries_for(
            log.undo_stack.last()->AddFood_0,
        ).drop_last(),
        forall|d: Seq<char>|
            d != log.undo_stack.last()->AddFood_0 ==> #[trigger] log.undone().entries_for(d)
                == log.entries_for(d),
{
    let date = log.undo_stack.last()->AddFood_0;
    law_undo_succeeds_unless_stack_is_empty(log);
    lemma_with_entries(log, date, log.entries_for(date).drop_last(), log.undo_stack.drop_last());
}

/// Whether the character `c` occurs nowhere in `s`.
pub open spec fn is_free_of(s: Seq<char>, c: char) -> bool {
    forall|i: int| 0 <= i < s.len() ==> s[i] != c
}

/// Splitting gives at least one piece.
pub proof fn lemma_split_is_not_empty(s: Seq<char>, sep: char)
    ensures
        split_text(s, sep).len() >= 1,
    decreases s.len(),
{
    if s.len() > 0 {
        lemma_split_is_not_empty(s.drop_last(), sep);
    }
}

/// A text without the separator is its own single piece.
pub proof fn lemma_split_without_separator(s: Seq<char>, sep: char)
    requires
        is_free_of(s, sep),
    ensures
        split_text(s, sep) == seq![s],
    decreases s.len(),
{
    if s.len() == 0 {
        assert(s =~= Seq::<char>::empty());
    } else {
        lemma_split_without_separator(s.drop_last(), sep);
        let before = split_text(s.drop_last(), sep);
        assert(before.last().push(s.last()) =~= s);
        assert(before.drop_last().push(s) =~= seq![s]);
    }
}

/// The pieces of two texts with a separator between them are the pieces of
/// the first followed by the pieces of the second.
pub proof fn lemma_split_around_separator(s: Seq<char>, t: Seq<char>, sep: char)
    ensures
        split_text(s.push(sep) + t, sep) == split_text(s, sep) + split_text(t, sep),
    decreases t.len(),
{
    let whole = s.push(sep) + t;
    let left = split_text(s, sep);
    if t.len() == 0 {
        assert(whole =~= s.push(sep));
        assert(whole.drop_last() =~= s);
        assert(split_text(whole, sep) =~= left + split_text(t, sep));
    } else {
        lemma_split_around_separator(s, t.drop_last(), sep);
        lemma_split_is_not_empty(t.drop_last(), sep);
        let right = split_text(t.drop_last(), sep);
        assert(whole.drop_last() =~= s.push(sep) + t.drop_last());
        assert(whole.last() == t.last());
        let before = left + right;
        if t.last() == sep {
            assert(before.push(Seq::<char>::empty()) =~= left + right.push(Seq::<char>::empty()));
        } else {
            assert(before.last() == right.last());
            assert(before.drop_last() =~= left + right.drop_last());
            assert(before.drop_last().push(before.last().push(t.last())) =~= left
                + right.drop_last().push(right.last().push(t.last())));
        }
    }
}

/// A number written in base ten consists of digits, at least one, that write
/// the number.
pub proof fn lemma_decimal_is_digits(n: nat)
    ensures
        decimal_text(n).len() >= 1,
        forall|i: int| 0 <= i < decimal_text(n).len() ==> is_digit(#[trigger] decimal_text(n)[i]),
        digits_value(decimal_text(n)) == n,
    decreases n,
{
    reveal_with_fuel(digits_value, 2);
    if n < 10 {
        let text = seq![digit_char(n)];
        assert(text.drop_last() =~= Seq::<char>::empty());
        assert(is_digit(digit_char(n)));
        assert(text.last() == digit_char(n));
        assert((digit_char(n) as u8) - ('0' as u8) == n);
    } else {
        lemma_decimal_is_digits(n / 10);
        let front = decimal_text(n / 10);
        let text = front.push(digit_char(n % 10));
        assert(text.drop_last() =~= front);
        assert(is_digit(digit_char(n % 10)));
        assert((digit_char(n % 10) as u8) - ('0' as u8) == n % 10);
        assert forall|i: int| 0 <= i < text.len() implies is_digit(#[trigger] text[i]) by {
            if i < front.len() {
                assert(text[i] == front[i]);
            }
        }
    }
}

/// A number written in base ten reads back as itself.
pub proof fn lemma_decimal_reads_back(n: nat, max: nat)
    requires
        n <= max,
    ensures
        parsed_unsigned(decimal_text(n), max) == Some(n),
{
    lemma_decimal_is_digits(n);
    assert(is_digit(decimal_text(n)[0]));
}

/// A number written in base ten holds no character that is not a digit.
pub proof fn lemma_decimal_is_free_of(n: nat, c: char)
    requires
        !is_digit(c),
    ensures
        is_free_of(decimal_text(n), c),
{
    lemma_decimal_is_digits(n);
    assert forall|i: int| 0 <= i < decimal_text(n).len() implies decimal_text(n)[i] != c by {
        assert(is_digit(decimal_text(n)[i]));
    }
}

/// An entry whose food id holds no comma reads back from its line as itself.
pub proof fn law_entry_reads_back(entry: FoodEntryView)
    requires
        is_free_of(entry.food_id, ','),
    ensures
        decoded_entry(encoded_entry(entry)) == Some(entry),
{
    let servings = decimal_text(entry.servings as nat);
    let timestamp = decimal_text(entry.timestamp as nat);
    let rest = servings.push(',') + timestamp;
    lemma_decimal_is_free_of(entry.servings as nat, ',');
    lemma_decimal_is_free_of(entry.timestamp as nat, ',');
    lemma_split_without_separator(entry.food_id, ',');
    lemma_split_without_separator(servings, ',');
    lemma_split_without_separator(timestamp, ',');
    lemma_split_around_separator(servings, timestamp, ',');
    lemma_split_around_separator(entry.food_id, rest, ',');
    assert(encoded_entry(entry) =~= entry.food_id.push(',') + rest);
    let fields = split_text(encoded_entry(entry), ',');
    assert(fields =~= seq![entry.food_id, servings, timestamp]);
    lemma_decimal_reads_back(entry.servings as nat, u32::MAX as nat);
    lemma_decimal_reads_back(entry.timestamp as nat, u64::MAX as nat);
}

/// An entry of the ledger reads back from its line as itself, with its date,
/// where neither the date nor the food id holds a comma.
pub proof fn law_dated_entry_reads_back(date: Seq<char>, entry: FoodEntryView)
    requires
        is_free_of(date, ','),
        is_free_of(entry.food_id, ','),
    ensures
        decoded_dated(encoded_dated((date, entry))) == Some((date, entry)),
{
    let servings = decimal_text(entry.servings as nat);
    let timestamp = decimal_text(entry.timestamp as nat);
    let rest = servings.push(',') + timestamp;
    lemma_decimal_is_free_of(entry.servings as nat, ',');
    lemma_decimal_is_free_of(entry.timestamp as nat, ',');
    lemma_split_without_separator(date, ',');
    lemma_split_without_separator(entry.food_id, ',');
    lemma_split_without_separator(servings, ',');
    lemma_split_without_separator(timestamp, ',');
    lemma_split_around_separator(servings, timestamp, ',');
    lemma_split_around_separator(entry.food_id, rest, ',');
    lemma_split_around_separator(date, encoded_entry(entry), ',');
    assert(encoded_entry(entry) =~= entry.food_id.push(',') + rest);
    let fields = split_text(encoded_dated((date, entry)), ',');
    assert(fields =~= seq![date, entry.food_id, servings, timestamp]);
    lemma_decimal_reads_back(entry.servings as nat, u32::MAX as nat);
    lemma_decimal_reads_back(entry.timestamp as nat, u64::MAX as nat);
}

/// Whether the character `c` occurs in none of the pieces.
pub open spec fn each_is_free_of(pieces: Seq<Seq<char>>, c: char) -> bool {
    forall|i: int| 0 <= i < pieces.len() ==> is_free_of(#[trigger] pieces[i], c)
}

/// Joining pieces brings in no character but the separator.
pub proof fn lemma_joined_is_free_of(pieces: Seq<Seq<char>>, sep: char, c: char)
    requires
        each_is_free_of(pieces, c),
        sep != c,
    ensures
        is_free_of(joined(pieces, sep), c),
    decreases pieces.len(),
{
    if pieces.len() == 1 {
        assert(is_free_of(pieces[0], c));
    } else if pieces.len() > 1 {
        let front = pieces.drop_last();
        assert forall|i: int| 0 <= i < front.len() implies is_free_of(#[trigger] front[i], c) by {
            assert(front[i] == pieces[i]);
        }
        lemma_joined_is_free_of(front, sep, c);
        assert(is_free_of(pieces[pieces.len() - 1], c));
    }
}

/// Pieces that hold no separator come back when the joined text is split.
pub proof fn lemma_split_of_joined(pieces: Seq<Seq<char>>, sep: char)
    requires
        pieces.len() >= 1,
        each_is_free_of(pieces, sep),
    ensures
        split_text(joined(pieces, sep), sep) == pieces,
    decreases pieces.len(),
{
    if pieces.len() == 1 {
        assert(is_free_of(pieces[0], sep));
        lemma_split_without_separator(pieces[0], sep);
        assert(seq![pieces[0]] =~= pieces);
    } else {
        let front = pieces.drop_last();
        assert forall|i: int| 0 <= i < front.len() implies is_free_of(#[trigger] front[i], sep) by {
            assert(front[i] == pieces[i]);
        }
        lemma_split_of_joined(front, sep);
        assert(is_free_of(pieces[pieces.len() - 1], sep));
        lemma_split_without_separator(pieces.last(), sep);
        lemma_split_around_separator(joined(front, sep), pieces.last(), sep);
        assert(front + seq![pieces.last()] =~= pieces);
    }
}

/// A component whose id holds no colon reads back from its piece as itself.
pub proof fn lemma_component_reads_back(id: Seq<char>, servings: u32)
    requires
        is_free_of(id, ':'),
    ensures
        decoded_component(id.push(':') + decimal_text(servings as nat)) == Some((id, servings)),
{
    let number = decimal_text(servings as nat);
    lemma_decimal_is_free_of(servings as nat, ':');
    lemma_split_without_separator(id, ':');
    lemma_split_without_separator(number, ':');
    lemma_split_around_separator(id, number, ':');
    assert(split_text(id.push(':') + number, ':') =~= seq![id, number]);
    lemma_decimal_reads_back(servings as nat, u32::MAX as nat);
}

/// Components whose ids hold no colon read back from their pieces, in order.
pub proof fn lemma_components_read_back(components: Seq<(Seq<char>, u32)>)
    requires
        forall|k: int| 0 <= k < components.len() ==> is_free_of((#[trigger] components[k]).0, ':'),
    ensures
        decoded_components(encoded_components(components)) == components,
    decreases components.len(),
{
    let pieces = encoded_components(components);
    if components.len() == 0 {
        assert(decoded_components(pieces) =~= components);
    } else {
        let front = components.drop_last();
        assert forall|k: int| 0 <= k < front.len() implies is_free_of(
            (#[trigger] front[k]).0,
            ':',
        ) by {
            assert(front[k] == components[k]);
        }
        lemma_components_read_back(front);
        assert(pieces.drop_last() =~= encoded_components(front));
        let last = components.last();
        assert(last == components[components.len() - 1]);
        lemma_component_reads_back(last.0, last.1);
        assert(pieces.last() == last.0.push(':') + decimal_text(last.1 as nat));
        assert(front.push(last) =~= components);
    }
}

/// Whether a food can be stored as a line and read back: its id and name
/// hold no comma; it has a keyword, and its keywords hold neither comma nor
/// bar; a basic food has no components, and the component ids of a composite
/// food hold neither comma, bar nor colon.
pub open spec fn is_storable(food: FoodView) -> bool {
    &&& is_free_of(food.id, ',')
    &&& is_free_of(food.name, ',')
    &&& food.keywords.len() >= 1
    &&& each_is_free_of(food.keywords, ',')
    &&& each_is_free_of(food.keywords, '|')
    &&& !food.is_composite ==> food.components.len() == 0
    &&& forall|k: int|
        0 <= k < food.components.len() ==> {
            &&& is_free_of((#[trigger] food.components[k]).0, ',')
            &&& is_free_of(food.components[k].0, '|')
            &&& is_free_of(food.components[k].0, ':')
        }
}

/// The last field of a storable food's line holds no comma, and gives the
/// food's content back.
proof fn lemma_content_reads_back(food: FoodView)
    requires
        is_storable(food),
    ensures
        is_free_of(encoded_content(food), ','),
        food.is_composite ==> decoded_components(split_text(encoded_content(food), '|'))
            == food.components,
        !food.is_composite ==> parsed_unsigned(encoded_content(food), u32::MAX as nat) == Some(
            food.calories_per_serving as nat,
        ),
{
    if food.is_composite {
        let pieces = encoded_components(food.components);
        assert forall|i: int| 0 <= i < pieces.len() implies is_free_of(#[trigger] pieces[i], ',')
            && is_free_of(pieces[i], '|') by {
            let id = food.components[i].0;
            let number = decimal_text(food.components[i].1 as nat);
            lemma_decimal_is_free_of(food.components[i].1 as nat, ',');
            lemma_decimal_is_free_of(food.components[i].1 as nat, '|');
            assert(is_free_of(id, ',') && is_free_of(id, '|'));
            assert(pieces[i] == id.push(':') + number);
        }
        lemma_joined_is_free_of(pieces, '|', ',');
        lemma_components_read_back(food.components);
        if pieces.len() >= 1 {
            lemma_split_of_joined(pieces, '|');
        } else {
            let none = Seq::<char>::empty();
            assert(joined(pieces, '|') =~= none);
            assert(split_text(none, '|') =~= seq![none]);
            assert(split_text(none, ':') =~= seq![none]);
            assert(seq![none].drop_last() =~= Seq::<Seq<char>>::empty());
            assert(decoded_component(none) is None);
            reveal_with_fuel(decoded_components, 2);
            assert(decoded_components(seq![none]) =~= food.components);
        }
    } else {
        lemma_decimal_is_free_of(food.calories_per_serving as nat, ',');
        lemma_decimal_reads_back(food.calories_per_serving as nat, u32::MAX as nat);
    }
}

/// A storable food reads back from its line as itself, a composite food with
/// the calorie value 0: its value is not stored but resolved again.
pub proof fn law_food_reads_back(food: FoodView)
    requires
        is_storable(food),
    ensures
        decoded_food(encoded_food(food)) == Some(
            if food.is_composite {
                FoodView { calories_per_serving: 0, ..food }
            } else {
                food
            },
        ),
{
    reveal_strlit("basic");
    reveal_strlit("composite");
    assert("basic"@.len() == 5 && "composite"@.len() == 9);
    let kind = if food.is_composite {
        "composite"@
    } else {
        "basic"@
    };
    assert(is_free_of(kind, ','));
    let keywords = joined(food.keywords, '|');
    let content = encoded_content(food);
    lemma_content_reads_back(food);
    lemma_joined_is_free_of(food.keywords, '|', ',');
    lemma_split_of_joined(food.keywords, '|');
    let after_keywords = keywords.push(',') + content;
    let after_name = food.name.push(',') + after_keywords;
    let after_id = food.id.push(',') + after_name;
    lemma_split_without_separator(kind, ',');
    lemma_split_without_separator(food.id, ',');
    lemma_split_without_separator(food.name, ',');
    lemma_split_without_separator(keywords, ',');
    lemma_split_without_separator(content, ',');
    lemma_split_around_separator(keywords, content, ',');
    lemma_split_around_separator(food.name, after_keywords, ',');
    lemma_split_around_separator(food.id, after_name, ',');
    lemma_split_around_separator(kind, after_id, ',');
    assert(encoded_food(food) =~= kind.push(',') + after_id);
    let fields = split_text(encoded_food(food), ',');
    assert(fields =~= seq![kind, food.id, food.name, keywords, content]);
    if !food.is_composite {
        assert(food.components =~= Seq::<(Seq<char>, u32)>::empty());
    }
}

} // verus!
