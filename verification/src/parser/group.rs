//! Declaration groups: the runs of tokens that end in a separator of depth
//! zero.

use crate::token::Token;
use vstd::prelude::*;
use vstd::slice::slice_subrange;

verus! {

/// The groups of `tokens` from `start` on, of which the tokens up to `end`
/// have been seen to belong to the first. A group ends with a separator of
/// depth zero. The end-of-file token ends the partition, and what stands
/// between the last separator and it belongs to no group; without such a
/// token the rest is one last group.
pub open spec fn partition_from(tokens: Seq<Token>, start: int, end: int) -> Seq<Seq<Token>>
    decreases tokens.len() - end,
{
    if end < 0 || end >= tokens.len() {
        if 0 <= start < end <= tokens.len() {
            seq![tokens.subrange(start, end)]
        } else {
            seq![]
        }
    } else if tokens[end].is_eof() {
        seq![]
    } else if tokens[end].is_separator_zero() {
        seq![tokens.subrange(start, end + 1)] + partition_from(tokens, end + 1, end + 1)
    } else {
        partition_from(tokens, start, end + 1)
    }
}

/// The declaration groups of `tokens`.
pub open spec fn partition_of(tokens: Seq<Token>) -> Seq<Seq<Token>> {
    partition_from(tokens, 0, 0)
}

/// What holds of a group: it has a token; none of its tokens is the
/// end-of-file token; none but the last is a separator of depth zero; and
/// the last is one, unless the tokens ran out first.
pub open spec fn is_group(group: Seq<Token>, tokens: Seq<Token>) -> bool {
    &&& group.len() > 0
    &&& forall|k: int| 0 <= k < group.len() ==> !(#[trigger] group[k]).is_eof()
    &&& forall|k: int| 0 <= k < group.len() - 1 ==> !(#[trigger] group[k]).is_separator_zero()
    &&& group.last().is_separator_zero() || (tokens.len() > 0 && group.last() == tokens.last()
        && forall|k: int| 0 <= k < tokens.len() ==> !(#[trigger] tokens[k]).is_eof())
}

/// The groups, one after the other.
pub open spec fn joined(groups: Seq<Seq<Token>>) -> Seq<Token>
    decreases groups.len(),
{
    if groups.len() == 0 {
        seq![]
    } else {
        joined(groups.drop_last()) + groups.last()
    }
}

proof fn lemma_joined_first(first: Seq<Token>, rest: Seq<Seq<Token>>)
    ensures
        joined(seq![first] + rest) == first + joined(rest),
    decreases rest.len(),
{
    if rest.len() == 0 {
        assert(seq![first] + rest =~= seq![first]);
        assert(seq![first].drop_last() =~= Seq::<Seq<Token>>::empty());
        assert(joined(seq![first].drop_last()) =~= Seq::<Token>::empty());
        assert(joined(seq![first]) =~= first);
        assert(first + joined(rest) =~= first);
    } else {
        lemma_joined_first(first, rest.drop_last());
        assert((seq![first] + rest).drop_last() =~= seq![first] + rest.drop_last());
        assert(joined(seq![first] + rest) =~= first + joined(rest));
    }
}

/// Every group of a partition is a group, and the groups one after the
/// other are the tokens they were cut from: those from `start` up to the
/// end-of-file token, or to the last separator before it.
pub proof fn lemma_partition_from(tokens: Seq<Token>, start: int, end: int)
    requires
        0 <= start <= end <= tokens.len(),
        forall|k: int|
            start <= k < end ==> !(#[trigger] tokens[k]).is_eof() && !tokens[k].is_separator_zero(),
        forall|k: int| 0 <= k < start ==> !(#[trigger] tokens[k]).is_eof(),
    ensures
        forall|m: int|
            0 <= m < partition_from(tokens, start, end).len() ==> is_group(
                #[trigger] partition_from(tokens, start, end)[m],
                tokens,
            ),
        start + joined(partition_from(tokens, start, end)).len() <= tokens.len(),
        joined(partition_from(tokens, start, end)) == tokens.subrange(
            start,
            start + joined(partition_from(tokens, start, end)).len(),
        ),
    decreases tokens.len() - end,
{
    let groups = partition_from(tokens, start, end);
    if end >= tokens.len() {
        if start < end {
            let group = tokens.subrange(start, end);
            assert(groups =~= seq![group]);
            assert(group.last() == tokens.last());
            assert(is_group(group, tokens));
            lemma_joined_first(group, seq![]);
            assert(seq![group] + Seq::<Seq<Token>>::empty() =~= seq![group]);
            assert(joined(groups) =~= group);
        } else {
            assert(joined(groups) =~= tokens.subrange(start, start));
        }
    } else if tokens[end].is_eof() {
        assert(joined(groups) =~= tokens.subrange(start, start));
    } else if tokens[end].is_separator_zero() {
        let group = tokens.subrange(start, end + 1);
        let rest = partition_from(tokens, end + 1, end + 1);
        lemma_partition_from(tokens, end + 1, end + 1);
        assert(is_group(group, tokens));
        assert forall|m: int| 0 <= m < groups.len() implies is_group(#[trigger] groups[m], tokens) by {
            if m > 0 {
                assert(groups[m] == rest[m - 1]);
            }
        }
        lemma_joined_first(group, rest);
        assert(joined(groups) =~= tokens.subrange(start, start + joined(groups).len()));
    } else {
        lemma_partition_from(tokens, start, end + 1);
    }
}

/// The tokens of each slice.
pub open spec fn slices_view(slices: Seq<&[Token]>) -> Seq<Seq<Token>> {
    slices.map_values(|slice: &[Token]| slice@)
}

/// Splits `tokens` into declaration groups. Each group ends with a
/// separator of depth zero and holds no other; the groups one after the
/// other are the tokens up to the end-of-file token or, before it, the last
/// separator of depth zero.
pub fn partition<'a>(tokens: &'a [Token]) -> (groups: Vec<&'a [Token]>)
    ensures
        slices_view(groups@) == partition_of(tokens@),
        forall|m: int| 0 <= m < groups@.len() ==> is_group((#[trigger] groups@[m])@, tokens@),
        joined(slices_view(groups@)) == tokens@.take(joined(slices_view(groups@)).len() as int),
{
    let mut groups: Vec<&'a [Token]> = Vec::new();
    let mut start: usize = 0;
    let mut end: usize = 0;
    proof {
        assert(slices_view(groups@) + partition_from(tokens@, 0, 0) =~= partition_of(tokens@));
    }
    while end < tokens.len()
        invariant
            0 <= start <= end <= tokens@.len(),
            partition_of(tokens@) == slices_view(groups@) + partition_from(
                tokens@,
                start as int,
                end as int,
            ),
        decreases tokens.len() - end,
    {
        let token = tokens[end];
        if token.is_eof() {
            proof {
                assert(slices_view(groups@) + Seq::<Seq<Token>>::empty() =~= slices_view(groups@));
                lemma_partition(tokens@, groups@);
            }
            return groups;
        }
        end += 1;
        if token.is_separator_zero() {
            let ghost before = slices_view(groups@);
            let group = slice_subrange(tokens, start, end);
            groups.push(group);
            proof {
                assert(slices_view(groups@) =~= before.push(group@));
                assert(before + (seq![group@] + partition_from(tokens@, end as int, end as int))
                    =~= slices_view(groups@) + partition_from(tokens@, end as int, end as int));
            }
            start = end;
        }
    }
    if end > start {
        let ghost before = slices_view(groups@);
        let group = slice_subrange(tokens, start, end);
        groups.push(group);
        proof {
            assert(slices_view(groups@) =~= before.push(group@));
            assert(before + seq![group@] =~= slices_view(groups@));
        }
    } else {
        proof {
            assert(slices_view(groups@) + Seq::<Seq<Token>>::empty() =~= slices_view(groups@));
        }
    }
    proof {
        lemma_partition(tokens@, groups@);
    }
    groups
}

proof fn lemma_partition(tokens: Seq<Token>, groups: Seq<&[Token]>)
    requires
        slices_view(groups) == partition_of(tokens),
    ensures
        forall|m: int| 0 <= m < groups.len() ==> is_group((#[trigger] groups[m])@, tokens),
        joined(slices_view(groups)) == tokens.take(joined(slices_view(groups)).len() as int),
{
    lemma_partition_from(tokens, 0, 0);
    assert forall|m: int| 0 <= m < groups.len() implies is_group((#[trigger] groups[m])@, tokens) by {
        assert(slices_view(groups)[m] == groups[m]@);
    }
}

} // verus!
