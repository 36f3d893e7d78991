//! The ordering engine: the total order in which the definitions of a
//! catalog are tried, and the stable sort that establishes it.

use crate::catalog::option_views;
use crate::definition::{ProgramOption, ProgramOptionView};
use crate::text::{
    lemma_lex_less_asymmetric, lemma_lex_less_irreflexive, lemma_lex_less_transitive,
    lemma_text_less_total,
};
use vstd::prelude::*;
use vstd::utf8::*;

verus! {

/// No definition has its place before itself.
pub proof fn lemma_sorts_before_irreflexive(a: ProgramOptionView)
    ensures
        !a.sorts_before(a),
{
    lemma_lex_less_irreflexive(encode_utf8(a.option_name));
}

/// Two definitions are never each before the other.
pub proof fn lemma_sorts_before_asymmetric(a: ProgramOptionView, b: ProgramOptionView)
    requires
        a.sorts_before(b),
    ensures
        !b.sorts_before(a),
{
    if b.sorts_before(a) {
        lemma_lex_less_asymmetric(encode_utf8(a.option_name), encode_utf8(b.option_name));
    }
}

/// The catalog order is transitive.
pub proof fn lemma_sorts_before_transitive(
    a: ProgramOptionView,
    b: ProgramOptionView,
    c: ProgramOptionView,
)
    requires
        a.sorts_before(b),
        b.sorts_before(c),
    ensures
        a.sorts_before(c),
{
    let whole_a = a.kind.syntax_matches_with_equals();
    let whole_b = b.kind.syntax_matches_with_equals();
    let whole_c = c.kind.syntax_matches_with_equals();
    if whole_a == whole_b && whole_b == whole_c {
        if whole_a || (a.name_len() == b.name_len() && b.name_len() == c.name_len()) {
            lemma_lex_less_transitive(
                encode_utf8(a.option_name),
                encode_utf8(b.option_name),
                encode_utf8(c.option_name),
            );
        }
    }
}

/// Two definitions with different internal names are ordered one way or the
/// other.
pub proof fn lemma_sorts_before_total(a: ProgramOptionView, b: ProgramOptionView)
    requires
        a.option_name != b.option_name,
    ensures
        a.sorts_before(b) || b.sorts_before(a),
{
    lemma_text_less_total(a.option_name, b.option_name);
}

/// Whether a list of definitions is in catalog order: no definition has its
/// place before one that stands earlier in the list.
pub open spec fn is_ordered(list: Seq<ProgramOptionView>) -> bool {
    forall|i: int, j: int|
        0 <= i < j < list.len() ==> !(#[trigger] list[j]).sorts_before(#[trigger] list[i])
}

/// Where a definition goes into an ordered list: in front of the first
/// definition, from index `from` on, that it sorts before, and at the end
/// where there is none.
pub open spec fn insert_position(
    list: Seq<ProgramOptionView>,
    option: ProgramOptionView,
    from: int,
) -> int
    decreases list.len() - from,
{
    if from < 0 || from >= list.len() {
        list.len() as int
    } else if option.sorts_before(list[from]) {
        from
    } else {
        insert_position(list, option, from + 1)
    }
}

/// The stable sort of a list of definitions into catalog order: each
/// definition in turn takes its place behind all that do not sort after it,
/// so that definitions which the order does not tell apart keep the order
/// they came in.
pub open spec fn sort_options(list: Seq<ProgramOptionView>) -> Seq<ProgramOptionView>
    decreases list.len(),
{
    if list.len() == 0 {
        seq![]
    } else {
        let sorted = sort_options(list.drop_last());
        sorted.insert(insert_position(sorted, list.last(), 0), list.last())
    }
}

/// The insert position lies in the list, nothing in front of it sorts after
/// the definition, and the definition sorts before what stands at it.
pub proof fn lemma_insert_position(
    list: Seq<ProgramOptionView>,
    option: ProgramOptionView,
    from: int,
)
    requires
        0 <= from <= list.len(),
    ensures
        from <= insert_position(list, option, from) <= list.len(),
        forall|k: int|
            from <= k < insert_position(list, option, from) ==> !option.sorts_before(
                #[trigger] list[k],
            ),
        insert_position(list, option, from) < list.len() ==> option.sorts_before(
            list[insert_position(list, option, from)],
        ),
    decreases list.len() - from,
{
    if from < list.len() && !option.sorts_before(list[from]) {
        lemma_insert_position(list, option, from + 1);
    }
}

/// Sorting keeps the number of definitions.
pub proof fn lemma_sort_len(list: Seq<ProgramOptionView>)
    ensures
        sort_options(list).len() == list.len(),
    decreases list.len(),
{
    if list.len() > 0 {
        let sorted = sort_options(list.drop_last());
        lemma_sort_len(list.drop_last());
        lemma_insert_position(sorted, list.last(), 0);
    }
}

/// The sorted list is in catalog order.
pub proof fn lemma_sort_is_ordered(list: Seq<ProgramOptionView>)
    ensures
        is_ordered(sort_options(list)),
    decreases list.len(),
{
    if list.len() > 0 {
        let sorted = sort_options(list.drop_last());
        let option = list.last();
        let at = insert_position(sorted, option, 0);
        lemma_sort_is_ordered(list.drop_last());
        lemma_insert_position(sorted, option, 0);
        let result = sorted.insert(at, option);
        assert forall|i: int, j: int| 0 <= i < j < result.len() implies !(
        #[trigger] result[j]).sorts_before(#[trigger] result[i]) by {
            if i == at {
                // result[j] stood at j - 1 >= at in the sorted list
                let later = sorted[j - 1];
                if later.sorts_before(option) {
                    lemma_sorts_before_transitive(later, option, sorted[at]);
                    if j - 1 == at {
                        lemma_sorts_before_irreflexive(later);
                    }
                }
            } else if j == at {
                assert(!option.sorts_before(sorted[i]));
            } else {
                let a = if i < at { i } else { i - 1 };
                let b = if j < at { j } else { j - 1 };
                assert(result[i] == sorted[a] && result[j] == sorted[b]);
            }
        }
    }
}

/// Sorting brings in nothing: each definition of the sorted list is one of
/// the list that was sorted.
pub proof fn lemma_sort_holds_what_list_holds(list: Seq<ProgramOptionView>, i: int)
    requires
        0 <= i < sort_options(list).len(),
    ensures
        list.contains(sort_options(list)[i]),
    decreases list.len(),
{
    if list.len() > 0 {
        let shorter = list.drop_last();
        let sorted = sort_options(shorter);
        let at = insert_position(sorted, list.last(), 0);
        lemma_insert_position(sorted, list.last(), 0);
        if i == at {
            assert(list[list.len() - 1] == list.last());
        } else {
            let k = if i < at { i } else { i - 1 };
            assert(sort_options(list)[i] == sorted[k]);
            lemma_sort_holds_what_list_holds(shorter, k);
            let j = choose|j: int| 0 <= j < shorter.len() && shorter[j] == sorted[k];
            assert(list[j] == sorted[k]);
        }
    }
}

/// The list sorted into catalog order; definitions that the order does not
/// tell apart keep the order they came in.
pub fn sort_definitions(list: &Vec<ProgramOption>) -> (sorted: Vec<ProgramOption>)
    ensures
        option_views(sorted@) == sort_options(option_views(list@)),
        sorted@.len() == list@.len(),
        is_ordered(option_views(sorted@)),
{
    proof {
        lemma_sort_len(option_views(list@));
        lemma_sort_is_ordered(option_views(list@));
    }
    let ghost views = option_views(list@);
    let mut sorted: Vec<ProgramOption> = Vec::new();
    let mut i: usize = 0;
    assert(views.subrange(0, 0) =~= seq![]);
    while i < list.len()
        invariant
            i <= list@.len(),
            views == option_views(list@),
            option_views(sorted@) == sort_options(views.subrange(0, i as int)),
        decreases list@.len() - i,
    {
        let ghost before = option_views(sorted@);
        let option = list[i].clone();
        let mut at: usize = 0;
        proof {
            lemma_sort_len(views.subrange(0, i as int));
        }
        while at < sorted.len() && !option.sorts_before(&sorted[at])
            invariant
                at <= sorted@.len(),
                before == option_views(sorted@),
                insert_position(before, option@, 0) == insert_position(before, option@, at as int),
            decreases sorted@.len() - at,
        {
            assert(before[at as int] == sorted@[at as int]@);
            at += 1;
        }
        proof {
            if at < sorted@.len() {
                assert(before[at as int] == sorted@[at as int]@);
            }
            let prefix = views.subrange(0, i + 1);
            assert(prefix.drop_last() =~= views.subrange(0, i as int));
            assert(prefix.last() == option@);
        }
        sorted.insert(at, option);
        assert(option_views(sorted@) =~= before.insert(at as int, option@));
        i += 1;
    }
    assert(views.subrange(0, i as int) =~= views);
    sorted
}

} // verus!
