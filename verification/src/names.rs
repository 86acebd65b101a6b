//! Lists of named entries, in which a later entry shadows an earlier one of
//! the same name.
use vstd::prelude::*;

verus! {

/// The position of the last entry that bears the name.
pub open spec fn position<V>(entries: Seq<(String, V)>, name: Seq<char>) -> Option<int>
    decreases entries.len(),
{
    if entries.len() == 0 {
        None
    } else if entries.last().0@ == name {
        Some(entries.len() - 1)
    } else {
        position(entries.drop_last(), name)
    }
}

/// A position that was found is that of an entry with the name.
pub proof fn lemma_position_found<V>(entries: Seq<(String, V)>, name: Seq<char>)
    ensures
        position(entries, name) matches Some(i) ==> 0 <= i < entries.len() && entries[i].0@
            == name,
    decreases entries.len(),
{
    if entries.len() > 0 && entries.last().0@ != name {
        lemma_position_found(entries.drop_last(), name);
    }
}

/// Finds the last entry that bears the name.
pub fn find<V>(entries: &Vec<(String, V)>, name: &String) -> (found: Option<usize>)
    ensures
        match found {
            Some(i) => position(entries@, name@) == Some(i as int) && i < entries.len(),
            None => position(entries@, name@) is None,
        },
{
    let mut i: usize = entries.len();
    assert(entries@.take(i as int) =~= entries@);
    while i > 0
        invariant
            i <= entries.len(),
            position(entries@, name@) == position(entries@.take(i as int), name@),
        decreases i,
    {
        if entries[i - 1].0 == *name {
            return Some(i - 1);
        }
        proof {
            assert(entries@.take(i as int).drop_last() =~= entries@.take(i - 1));
        }
        i = i - 1;
    }
    None
}

} // verus!
