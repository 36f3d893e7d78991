//! Lookup indices over a catalog: the definitions by flag and by group.

use crate::catalog::CommandOptions;
use crate::definition::{ProgramOption, ProgramOptionView};
use crate::text::same_text;
use vstd::prelude::*;

verus! {

/// A definition filed under a tag.
pub type Filed = (Seq<char>, ProgramOptionView);

/// The distinct tags of a list of filed definitions, in the order in which
/// each first occurs.
pub open spec fn tags_of(filed: Seq<Filed>) -> Seq<Seq<char>>
    decreases filed.len(),
{
    if filed.len() == 0 {
        seq![]
    } else {
        let before = tags_of(filed.drop_last());
        if before.contains(filed.last().0) {
            before
        } else {
            before.push(filed.last().0)
        }
    }
}

/// The definitions filed under `tag`, in the order of the list.
pub open spec fn members_of(filed: Seq<Filed>, tag: Seq<char>) -> Seq<ProgramOptionView>
    decreases filed.len(),
{
    if filed.len() == 0 {
        seq![]
    } else {
        let before = members_of(filed.drop_last(), tag);
        if filed.last().0 == tag {
            before.push(filed.last().1)
        } else {
            before
        }
    }
}

/// The index of a list of filed definitions: one entry for each tag, in the
/// order in which the tags first occur, with the definitions filed under it.
pub open spec fn index_of(filed: Seq<Filed>) -> Seq<(Seq<char>, Seq<ProgramOptionView>)> {
    Seq::new(
        tags_of(filed).len(),
        |k: int| (tags_of(filed)[k], members_of(filed, tags_of(filed)[k])),
    )
}

/// Each definition that has a group, filed under that group.
pub open spec fn filed_by_group(catalog: Seq<ProgramOptionView>) -> Seq<Filed>
    decreases catalog.len(),
{
    if catalog.len() == 0 {
        seq![]
    } else {
        let before = filed_by_group(catalog.drop_last());
        match catalog.last().group {
            Some(group) => before.push((group, catalog.last())),
            None => before,
        }
    }
}

/// One definition filed under each of its first `count` flags, in the order
/// of the flags.
pub open spec fn filed_under_flags(option: ProgramOptionView, count: int) -> Seq<Filed> {
    Seq::new(count as nat, |j: int| (option.flags[j], option))
}

/// Each definition filed under each of its flags: definition by definition,
/// and for each in the order of its flags.
pub open spec fn filed_by_flag(catalog: Seq<ProgramOptionView>) -> Seq<Filed>
    decreases catalog.len(),
{
    if catalog.len() == 0 {
        seq![]
    } else {
        filed_by_flag(catalog.drop_last()) + filed_under_flags(
            catalog.last(),
            catalog.last().flags.len() as int,
        )
    }
}

/// No tag occurs twice among the tags of a list.
pub proof fn lemma_tags_distinct(filed: Seq<Filed>)
    ensures
        tags_of(filed).no_duplicates(),
    decreases filed.len(),
{
    if filed.len() > 0 {
        lemma_tags_distinct(filed.drop_last());
    }
}

/// A tag is among the tags of a list exactly if some definition is filed
/// under it.
pub proof fn lemma_tag_has_members(filed: Seq<Filed>, tag: Seq<char>)
    ensures
        tags_of(filed).contains(tag) <==> members_of(filed, tag).len() > 0,
    decreases filed.len(),
{
    if filed.len() > 0 {
        lemma_tag_has_members(filed.drop_last(), tag);
        let before = tags_of(filed.drop_last());
        if !before.contains(filed.last().0) {
            assert(before.push(filed.last().0).last() == filed.last().0);
            if before.contains(tag) {
                let k = choose|k: int| 0 <= k < before.len() && before[k] == tag;
                assert(before.push(filed.last().0)[k] == tag);
            }
        }
    }
}

/// The contents of an index.
pub open spec fn index_view(index: Seq<(&str, Vec<&ProgramOption>)>) -> Seq<
    (Seq<char>, Seq<ProgramOptionView>),
> {
    Seq::new(
        index.len(),
        |k: int| (index[k].0@, Seq::new(index[k].1@.len(), |m: int| index[k].1@[m]@)),
    )
}

/// Files one more definition in an index.
#[verifier::loop_isolation(false)]
fn file_option<'a>(
    index: &mut Vec<(&'a str, Vec<&'a ProgramOption>)>,
    tag: &'a str,
    option: &'a ProgramOption,
    Ghost(filed): Ghost<Seq<Filed>>,
)
    requires
        index_view(old(index)@) == index_of(filed),
    ensures
        index_view(final(index)@) == index_of(filed.push((tag@, option@))),
{
    let ghost more = filed.push((tag@, option@));
    let ghost tags = tags_of(filed);
    proof {
        assert(more.drop_last() =~= filed);
        lemma_tags_distinct(filed);
        lemma_tag_has_members(filed, tag@);
        assert forall|other: Seq<char>| other != tag@ implies members_of(more, other)
            == members_of(filed, other) by {}
        assert(members_of(more, tag@) == members_of(filed, tag@).push(option@));
    }
    assert(index_view(index@).len() == index@.len());
    let mut k: usize = 0;
    while k < index.len()
        invariant
            k <= index@.len(),
            index@ == old(index)@,
            index_view(index@) == index_of(filed),
            index@.len() == tags.len(),
            forall|j: int| 0 <= j < k ==> tags[j] != tag@,
        decreases index@.len() - k,
    {
        assert(index_view(index@)[k as int].0 == index@[k as int].0@);
        if same_text(index[k].0, tag) {
            let ghost before = index_view(index@);
            let ghost old_members = before[k as int].1;
            index[k].1.push(option);
            proof {
                let after = index_view(index@);
                assert(tags.contains(tag@));
                assert(tags_of(more) == tags);
                assert(after.len() == index_of(more).len());
                assert forall|j: int| 0 <= j < after.len() implies after[j] == index_of(more)[j] by {
                    if j == k {
                        assert(after[j].1 =~= old_members.push(option@));
                    } else {
                        assert(tags[j] != tag@);
                        assert(after[j].1 =~= before[j].1);
                        assert(after[j] == before[j]);
                    }
                }
                assert(after =~= index_of(more));
            }
            return ;
        }
        k += 1;
    }
    let ghost before = index_view(index@);
    let mut members: Vec<&'a ProgramOption> = Vec::new();
    members.push(option);
    index.push((tag, members));
    proof {
        let after = index_view(index@);
        assert(!tags.contains(tag@));
        assert(tags_of(more) == tags.push(tag@));
        assert(members_of(filed, tag@) =~= seq![]);
        assert forall|j: int| 0 <= j < after.len() implies after[j] == index_of(more)[j] by {
            if j == before.len() {
                assert(after[j].1 =~= seq![option@]);
                assert(members_of(more, tag@) =~= seq![option@]);
            } else {
                assert(tags[j] != tag@);
                assert(after[j].1 =~= before[j].1);
                assert(after[j] == before[j]);
            }
        }
        assert(after =~= index_of(more));
    }
}

impl CommandOptions {
    /// Obtain all options indexed by their flags.
    ///
    /// Each flag has one entry, in the order in which the flags first occur
    /// in the catalog; an entry lists the definitions with that flag in
    /// catalog order. Options without flags are not returned.
    pub fn options_by_flag<'a>(&'a self) -> (index: Vec<(&'a str, Vec<&'a ProgramOption>)>)
        ensures
            index_view(index@) == index_of(filed_by_flag(self@)),
    {
        let mut index: Vec<(&'a str, Vec<&'a ProgramOption>)> = Vec::new();
        let mut i: usize = 0;
        assert(self@.subrange(0, 0) =~= seq![]);
        assert(index_view(index@) =~= index_of(seq![]));
        while i < self.options.len()
            invariant
                i <= self.options@.len(),
                index_view(index@) == index_of(filed_by_flag(self@.subrange(0, i as int))),
            decreases self.options@.len() - i,
        {
            let option = &self.options[i];
            let ghost done = filed_by_flag(self@.subrange(0, i as int));
            let mut j: usize = 0;
            assert(self@[i as int] == option@);
            assert(done + filed_under_flags(option@, 0) =~= done);
            while j < option.flags.len()
                invariant
                    j <= option.flags@.len(),
                    option.flags@.len() == option@.flags.len(),
                    index_view(index@) == index_of(done + filed_under_flags(option@, j as int)),
                decreases option.flags@.len() - j,
            {
                let ghost filed = done + filed_under_flags(option@, j as int);
                assert(option@.flags[j as int] == option.flags@[j as int]@);
                file_option(&mut index, option.flags[j].as_str(), option, Ghost(filed));
                assert(filed.push((option.flags@[j as int]@, option@)) =~= done
                    + filed_under_flags(option@, j + 1));
                j += 1;
            }
            proof {
                let upto = self@.subrange(0, i + 1);
                assert(upto.drop_last() =~= self@.subrange(0, i as int));
                assert(upto.last() == option@);
            }
            i += 1;
        }
        assert(self@.subrange(0, i as int) =~= self@);
        index
    }

    /// Obtain all options indexed by their named group.
    ///
    /// Each group has one entry, in the order in which the groups first occur
    /// in the catalog; an entry lists the definitions of that group in
    /// catalog order. Options without a group are not returned.
    pub fn options_by_group<'a>(&'a self) -> (index: Vec<(&'a str, Vec<&'a ProgramOption>)>)
        ensures
            index_view(index@) == index_of(filed_by_group(self@)),
    {
        let mut index: Vec<(&'a str, Vec<&'a ProgramOption>)> = Vec::new();
        let mut i: usize = 0;
        assert(self@.subrange(0, 0) =~= seq![]);
        assert(index_view(index@) =~= index_of(seq![]));
        while i < self.options.len()
            invariant
                i <= self.options@.len(),
                index_view(index@) == index_of(filed_by_group(self@.subrange(0, i as int))),
            decreases self.options@.len() - i,
        {
            let option = &self.options[i];
            let ghost done = filed_by_group(self@.subrange(0, i as int));
            proof {
                let upto = self@.subrange(0, i + 1);
                assert(upto.drop_last() =~= self@.subrange(0, i as int));
                assert(upto.last() == option@);
            }
            match &option.group {
                Some(group) => {
                    file_option(&mut index, group.as_str(), option, Ghost(done));
                },
                None => {},
            }
            i += 1;
        }
        assert(self@.subrange(0, i as int) =~= self@);
        index
    }
}

} // verus!
