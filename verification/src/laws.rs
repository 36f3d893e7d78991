//! Laws of the library: statements that hold of every input, proved from the
//! definitions that the contracts use.

use crate::definition::ProgramOptionView;
use crate::error::ErrorView;
use crate::metadata::{definitions_from, load, OptionRecordView};
use crate::ordering::{
    insert_position, is_ordered, lemma_insert_position, lemma_sort_is_ordered,
    lemma_sorts_before_asymmetric, lemma_sorts_before_irreflexive, lemma_sorts_before_total,
    lemma_sorts_before_transitive, sort_options,
};
use crate::parsed::ParsedArgumentView;
use crate::parser::{
    after, definition_step, is_positional, lemma_step_advances, parse_from, parse_step, scan_step,
    StepView,
};
use vstd::multiset::*;
use vstd::prelude::*;
use vstd::seq_lib::*;

verus! {

/// A definition makes something of a token exactly if the token matches it.
pub proof fn lemma_step_iff_matches(option: ProgramOptionView, tokens: Seq<Seq<u8>>, pos: int)
    ensures
        definition_step(option, tokens, pos) is Some <==> option.matches(tokens[pos]),
{
}

/// Where no definition from `from` on matches the token, the scan ends with
/// an unknown argument of that one token.
proof fn lemma_scan_without_match(
    catalog: Seq<ProgramOptionView>,
    tokens: Seq<Seq<u8>>,
    pos: int,
    from: int,
)
    requires
        0 <= from,
        forall|i: int| from <= i < catalog.len() ==> !(#[trigger] catalog[i]).matches(tokens[pos]),
    ensures
        scan_step(catalog, tokens, pos, from) == (StepView {
            result: Ok(ParsedArgumentView::Unknown(tokens[pos])),
            next: pos + 1,
        }),
    decreases catalog.len() - from,
{
    if from < catalog.len() {
        lemma_step_iff_matches(catalog[from], tokens, pos);
        lemma_scan_without_match(catalog, tokens, pos, from + 1);
    }
}

/// Unknown tolerance: a token that is not positional and that no definition
/// of the catalog matches is parsed as `Unknown` with that token. This is
/// no failure, it consumes the one token, and the parse goes on with the
/// tokens behind it.
pub proof fn law_unknown_tolerance(
    catalog: Seq<ProgramOptionView>,
    tokens: Seq<Seq<u8>>,
    pos: int,
)
    requires
        0 <= pos < tokens.len(),
        !is_positional(tokens[pos]),
        forall|i: int| 0 <= i < catalog.len() ==> !(#[trigger] catalog[i]).matches(tokens[pos]),
    ensures
        parse_step(catalog, tokens, pos) == (StepView {
            result: Ok(ParsedArgumentView::Unknown(tokens[pos])),
            next: pos + 1,
        }),
        parse_from(catalog, tokens, pos) == after(
            seq![ParsedArgumentView::Unknown(tokens[pos])],
            parse_from(catalog, tokens, pos + 1),
        ),
{
    lemma_scan_without_match(catalog, tokens, pos, 0);
}

/// First match wins: where a definition matches a token that is not
/// positional and none in front of it does, the step is what that definition
/// makes of the token.
pub proof fn law_first_match_wins(
    catalog: Seq<ProgramOptionView>,
    tokens: Seq<Seq<u8>>,
    pos: int,
    first: int,
)
    requires
        0 <= pos < tokens.len(),
        !is_positional(tokens[pos]),
        0 <= first < catalog.len(),
        catalog[first].matches(tokens[pos]),
        forall|i: int| 0 <= i < first ==> !(#[trigger] catalog[i]).matches(tokens[pos]),
    ensures
        Some(parse_step(catalog, tokens, pos)) == definition_step(catalog[first], tokens, pos),
{
    lemma_scan_upto(catalog, tokens, pos, first, 0);
}

/// Where the first match of a token stands at index `first`, a scan from
/// any index up to it ends with what that definition makes of the token.
proof fn lemma_scan_upto(
    catalog: Seq<ProgramOptionView>,
    tokens: Seq<Seq<u8>>,
    pos: int,
    first: int,
    from: int,
)
    requires
        0 <= from <= first < catalog.len(),
        catalog[first].matches(tokens[pos]),
        forall|i: int| from <= i < first ==> !(#[trigger] catalog[i]).matches(tokens[pos]),
    ensures
        Some(scan_step(catalog, tokens, pos, from)) == definition_step(
            catalog[first],
            tokens,
            pos,
        ),
    decreases first - from,
{
    lemma_step_iff_matches(catalog[from], tokens, pos);
    if from < first {
        lemma_scan_upto(catalog, tokens, pos, first, from + 1);
    }
}

/// Order of the results: a parse yields its arguments in the order of their
/// first tokens, each step starting where the one before it ended; so the
/// parse from a position is its first step followed by the parse from the
/// position behind that step.
pub proof fn law_parse_unfolds(catalog: Seq<ProgramOptionView>, tokens: Seq<Seq<u8>>, pos: int)
    requires
        0 <= pos < tokens.len(),
    ensures
        pos < parse_step(catalog, tokens, pos).next <= tokens.len(),
        parse_from(catalog, tokens, pos) == match parse_step(catalog, tokens, pos).result {
            Err(error) => Err::<Seq<ParsedArgumentView>, ErrorView>(error),
            Ok(argument) => after(
                seq![argument],
                parse_from(catalog, tokens, parse_step(catalog, tokens, pos).next),
            ),
        },
{
    lemma_step_advances(catalog, tokens, pos);
}

/// The catalog order is a strict order, and it is total on definitions with
/// different internal names: no definition stands before itself, no two
/// stand before each other, the order is transitive, and of two definitions
/// with different internal names one stands before the other.
pub proof fn law_catalog_order_is_strict(
    a: ProgramOptionView,
    b: ProgramOptionView,
    c: ProgramOptionView,
)
    ensures
        !a.sorts_before(a),
        a.sorts_before(b) ==> !b.sorts_before(a),
        a.sorts_before(b) && b.sorts_before(c) ==> a.sorts_before(c),
        a.option_name != b.option_name ==> a.sorts_before(b) || b.sorts_before(a),
{
    lemma_sorts_before_irreflexive(a);
    if a.sorts_before(b) {
        lemma_sorts_before_asymmetric(a, b);
        if b.sorts_before(c) {
            lemma_sorts_before_transitive(a, b, c);
        }
    }
    if a.option_name != b.option_name {
        lemma_sorts_before_total(a, b);
    }
}

/// Whole-token kinds first: in a catalog that is in order, no definition of
/// a kind that is matched against the start of a token stands in front of a
/// `Flag`, `Separate` or `MultiArg` definition.
pub proof fn law_whole_token_kinds_first(catalog: Seq<ProgramOptionView>, i: int, j: int)
    requires
        is_ordered(catalog),
        0 <= i < j < catalog.len(),
        catalog[j].kind.syntax_matches_with_equals(),
    ensures
        catalog[i].kind.syntax_matches_with_equals(),
{
    assert(!catalog[j].sorts_before(catalog[i]));
}

/// Greedy specificity: in a catalog that is in order, of two definitions
/// whose kinds are matched against the start of a token, the one that stands
/// first has the display name that is at least as long. So a token that
/// begins with both spellings goes to the longer one.
pub proof fn law_longer_names_first(catalog: Seq<ProgramOptionView>, i: int, j: int)
    requires
        is_ordered(catalog),
        0 <= i < j < catalog.len(),
        !catalog[i].kind.syntax_matches_with_equals(),
        !catalog[j].kind.syntax_matches_with_equals(),
    ensures
        catalog[i].name_len() >= catalog[j].name_len(),
{
    assert(!catalog[j].sorts_before(catalog[i]));
}

/// Whether the definitions of a list have pairwise different internal names.
pub open spec fn distinct_names(list: Seq<ProgramOptionView>) -> bool {
    forall|i: int, j: int|
        0 <= i < list.len() && 0 <= j < list.len() && i != j ==> (#[trigger] list[i]).option_name
            != (#[trigger] list[j]).option_name
}

/// Sorting rearranges: the sorted list holds each definition as often as the
/// list that was sorted.
pub proof fn lemma_sort_rearranges(list: Seq<ProgramOptionView>)
    ensures
        sort_options(list).to_multiset() == list.to_multiset(),
    decreases list.len(),
{
    if list.len() > 0 {
        let sorted = sort_options(list.drop_last());
        lemma_sort_rearranges(list.drop_last());
        lemma_insert_position(sorted, list.last(), 0);
        to_multiset_insert(sorted, insert_position(sorted, list.last(), 0), list.last());
        to_multiset_build(list.drop_last(), list.last());
        assert(list.drop_last().push(list.last()) =~= list);
    } else {
        assert(sort_options(list) =~= list);
    }
}

/// A rearrangement of a list with different internal names has different
/// internal names.
proof fn lemma_distinct_names_rearranged(first: Seq<ProgramOptionView>, second: Seq<ProgramOptionView>)
    requires
        first.to_multiset() == second.to_multiset(),
        distinct_names(first),
    ensures
        distinct_names(second),
{
    broadcast use group_multiset_axioms;

    assert(first.no_duplicates());
    first.lemma_multiset_has_no_duplicates();
    second.lemma_multiset_has_no_duplicates_conv();
    assert forall|i: int, j: int|
        0 <= i < second.len() && 0 <= j < second.len() && i != j implies (
    #[trigger] second[i]).option_name != (#[trigger] second[j]).option_name by {
        assert(second[i] != second[j]);
        to_multiset_contains(second, second[i]);
        to_multiset_contains(second, second[j]);
        to_multiset_contains(first, second[i]);
        to_multiset_contains(first, second[j]);
        assert(second.contains(second[i]) && second.contains(second[j]));
        let a = choose|a: int| 0 <= a < first.len() && first[a] == second[i];
        let b = choose|b: int| 0 <= b < first.len() && first[b] == second[j];
        assert(first[a].option_name != first[b].option_name);
    }
}

/// Two lists in catalog order with different internal names that hold the
/// same definitions are the same list.
proof fn lemma_ordered_lists_agree(first: Seq<ProgramOptionView>, second: Seq<ProgramOptionView>)
    requires
        is_ordered(first),
        is_ordered(second),
        distinct_names(first),
        distinct_names(second),
        forall|option: ProgramOptionView| first.contains(option) <==> second.contains(option),
    ensures
        first == second,
    decreases first.len(),
{
    if first.len() == 0 {
        if second.len() > 0 {
            assert(second.contains(second[0]));
        }
        assert(first =~= second);
    } else {
        assert(first.contains(first[0]));
        let j = choose|j: int| 0 <= j < second.len() && second[j] == first[0];
        assert(second.contains(second[0]));
        let i = choose|i: int| 0 <= i < first.len() && first[i] == second[0];
        if first[0] != second[0] {
            assert(i > 0 && j > 0);
            lemma_sorts_before_total(first[0], first[i]);
            assert(!first[i].sorts_before(first[0]));
            assert(!second[j].sorts_before(second[0]));
            assert(false);
        }
        let rest_first = first.skip(1);
        let rest_second = second.skip(1);
        assert forall|option: ProgramOptionView|
            rest_first.contains(option) <==> rest_second.contains(option) by {
            if rest_first.contains(option) {
                let k = choose|k: int| 0 <= k < rest_first.len() && rest_first[k] == option;
                assert(first[k + 1] == option);
                assert(first.contains(option));
                let m = choose|m: int| 0 <= m < second.len() && second[m] == option;
                assert(m != 0);
                assert(rest_second[m - 1] == option);
            }
            if rest_second.contains(option) {
                let k = choose|k: int| 0 <= k < rest_second.len() && rest_second[k] == option;
                assert(second[k + 1] == option);
                assert(second.contains(option));
                let m = choose|m: int| 0 <= m < first.len() && first[m] == option;
                assert(m != 0);
                assert(rest_first[m - 1] == option);
            }
        }
        assert(is_ordered(rest_first)) by {
            assert forall|a: int, b: int| 0 <= a < b < rest_first.len() implies !(
            #[trigger] rest_first[b]).sorts_before(#[trigger] rest_first[a]) by {
                assert(!first[b + 1].sorts_before(first[a + 1]));
            }
        }
        assert(is_ordered(rest_second)) by {
            assert forall|a: int, b: int| 0 <= a < b < rest_second.len() implies !(
            #[trigger] rest_second[b]).sorts_before(#[trigger] rest_second[a]) by {
                assert(!second[b + 1].sorts_before(second[a + 1]));
            }
        }
        assert(distinct_names(rest_first)) by {
            assert forall|a: int, b: int|
                0 <= a < rest_first.len() && 0 <= b < rest_first.len() && a != b implies (
            #[trigger] rest_first[a]).option_name != (#[trigger] rest_first[b]).option_name by {
                assert(first[a + 1].option_name != first[b + 1].option_name);
            }
        }
        assert(distinct_names(rest_second)) by {
            assert forall|a: int, b: int|
                0 <= a < rest_second.len() && 0 <= b < rest_second.len() && a != b implies (
            #[trigger] rest_second[a]).option_name != (#[trigger] rest_second[b]).option_name by {
                assert(second[a + 1].option_name != second[b + 1].option_name);
            }
        }
        lemma_ordered_lists_agree(rest_first, rest_second);
        assert(first =~= seq![first[0]] + rest_first);
        assert(second =~= seq![second[0]] + rest_second);
    }
}

/// Determinism of the ordering engine: two lists that hold the same
/// definitions equally often, in whatever order, sort to the same catalog,
/// provided that no internal name occurs twice.
pub proof fn law_sort_ignores_input_order(
    first: Seq<ProgramOptionView>,
    second: Seq<ProgramOptionView>,
)
    requires
        first.to_multiset() == second.to_multiset(),
        distinct_names(first),
    ensures
        sort_options(first) == sort_options(second),
{
    let a = sort_options(first);
    let b = sort_options(second);
    lemma_sort_rearranges(first);
    lemma_sort_rearranges(second);
    lemma_sort_is_ordered(first);
    lemma_sort_is_ordered(second);
    lemma_distinct_names_rearranged(first, a);
    lemma_distinct_names_rearranged(first, b);
    assert forall|option: ProgramOptionView| a.contains(option) <==> b.contains(option) by {
        to_multiset_contains(a, option);
        to_multiset_contains(b, option);
    }
    lemma_ordered_lists_agree(a, b);
}

/// The definitions of a list of records from an index on are those of the
/// records behind that index taken as a list of their own.
proof fn lemma_definitions_shift(records: Seq<OptionRecordView>, from: int)
    requires
        0 <= from <= records.len(),
    ensures
        definitions_from(records, from) == definitions_from(records.skip(from), 0),
    decreases records.len() - from,
{
    let tail = records.skip(from);
    if from < records.len() {
        assert(tail[0] == records[from]);
        lemma_definitions_shift(records, from + 1);
        lemma_definitions_shift(tail, 1);
        assert(tail.skip(1) =~= records.skip(from + 1));
    }
}

/// Two outcomes of loading, one after the other.
pub open spec fn both(
    first: Result<Seq<ProgramOptionView>, ErrorView>,
    second: Result<Seq<ProgramOptionView>, ErrorView>,
) -> Result<Seq<ProgramOptionView>, ErrorView> {
    match first {
        Err(error) => Err(error),
        Ok(list) => after_definitions(list, second),
    }
}

/// The definitions `done` followed by an outcome of loading.
pub open spec fn after_definitions(
    done: Seq<ProgramOptionView>,
    rest: Result<Seq<ProgramOptionView>, ErrorView>,
) -> Result<Seq<ProgramOptionView>, ErrorView> {
    match rest {
        Ok(rest) => Ok(done + rest),
        Err(error) => Err(error),
    }
}

/// The definitions of two lists of records, one after the other, are the
/// definitions of the first list followed by those of the second.
proof fn lemma_definitions_concat(first: Seq<OptionRecordView>, second: Seq<OptionRecordView>)
    ensures
        definitions_from(first + second, 0) == both(
            definitions_from(first, 0),
            definitions_from(second, 0),
        ),
    decreases first.len(),
{
    let all = first + second;
    if first.len() == 0 {
        assert(all =~= second);
        if definitions_from(second, 0) is Ok {
            assert(seq![] + definitions_from(second, 0)->Ok_0 =~= definitions_from(second, 0)->Ok_0);
        }
    } else {
        assert(all[0] == first[0]);
        lemma_definitions_shift(all, 1);
        lemma_definitions_shift(first, 1);
        assert(all.skip(1) =~= first.skip(1) + second);
        lemma_definitions_concat(first.skip(1), second);
        let head = first[0];
        let rest_first = definitions_from(first.skip(1), 0);
        let rest_second = definitions_from(second, 0);
        if head.is_option() && head.definition() is Ok && rest_first is Ok && rest_second is Ok {
            assert(seq![head.definition()->Ok_0] + (rest_first->Ok_0 + rest_second->Ok_0) =~= (
            seq![head.definition()->Ok_0] + rest_first->Ok_0) + rest_second->Ok_0);
        }
    }
}

/// Records in another order give the same definitions in another order:
/// where the first list loads, so does every rearrangement of it, and the
/// two lists of definitions hold the same definitions equally often.
proof fn lemma_definitions_rearranged(first: Seq<OptionRecordView>, second: Seq<OptionRecordView>)
    requires
        first.to_multiset() == second.to_multiset(),
        definitions_from(first, 0) is Ok,
    ensures
        definitions_from(second, 0) is Ok,
        definitions_from(second, 0)->Ok_0.to_multiset() == definitions_from(
            first,
            0,
        )->Ok_0.to_multiset(),
    decreases first.len(),
{
    broadcast use group_multiset_axioms;

    to_multiset_len(first);
    to_multiset_len(second);
    if first.len() == 0 {
        assert(second.len() == 0);
    } else {
        let last = first.last();
        let shorter = first.drop_last();
        assert(first =~= shorter + seq![last]);
        to_multiset_build(shorter, last);
        assert(shorter.push(last) =~= first);
        to_multiset_contains(second, last);
        assert(second.contains(last));
        let k = choose|k: int| 0 <= k < second.len() && second[k] == last;
        let others = second.remove(k);
        to_multiset_remove(second, k);
        assert(others.to_multiset() =~= shorter.to_multiset());

        let front = second.subrange(0, k);
        let back = second.subrange(k + 1, second.len() as int);
        assert(others =~= front + back);
        assert(second =~= (front + seq![last]) + back);

        lemma_definitions_concat(shorter, seq![last]);
        assert(definitions_from(shorter, 0) is Ok);
        assert(definitions_from(seq![last], 0) is Ok);
        lemma_definitions_rearranged(shorter, others);

        lemma_definitions_concat(front, back);
        lemma_definitions_concat(front, seq![last]);
        lemma_definitions_concat(front + seq![last], back);

        let of_shorter = definitions_from(shorter, 0)->Ok_0;
        let of_last = definitions_from(seq![last], 0)->Ok_0;
        let of_front = definitions_from(front, 0)->Ok_0;
        let of_back = definitions_from(back, 0)->Ok_0;
        assert(definitions_from(first, 0)->Ok_0 == of_shorter + of_last);
        assert(definitions_from(others, 0)->Ok_0 == of_front + of_back);
        assert(definitions_from(second, 0)->Ok_0 == (of_front + of_last) + of_back);
        lemma_multiset_commutative(of_shorter, of_last);
        lemma_multiset_commutative(of_front, of_back);
        lemma_multiset_commutative(of_front, of_last);
        lemma_multiset_commutative(of_front + of_last, of_back);
        assert(((of_front + of_last) + of_back).to_multiset() =~= (of_shorter
            + of_last).to_multiset());
    }
}

/// Ordering determinism: loading the same records in another order yields
/// the same catalog, definition for definition.
///
/// The catalog order tells two definitions apart by their internal names in
/// the last resort, so the law is stated for metadata in which no internal
/// name is used by two options.
pub proof fn law_ordering_determinism(
    first: Seq<OptionRecordView>,
    second: Seq<OptionRecordView>,
)
    requires
        first.to_multiset() == second.to_multiset(),
        load(first) is Ok,
        distinct_names(load(first)->Ok_0),
    ensures
        load(second) == load(first),
{
    lemma_definitions_rearranged(first, second);
    let of_first = definitions_from(first, 0)->Ok_0;
    let of_second = definitions_from(second, 0)->Ok_0;
    lemma_sort_rearranges(of_first);
    lemma_distinct_names_rearranged(sort_options(of_first), of_first);
    law_sort_ignores_input_order(of_first, of_second);
}

} // verus!
