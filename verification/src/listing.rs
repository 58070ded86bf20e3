//! The list of channels, as the front page shows it.

use vstd::prelude::*;

verus! {

/// An entry of the root directory.
#[derive(Debug)]
pub struct RootEntry {
    /// The entry's name.
    pub name: String,
    /// Whether the entry is a directory.
    pub is_dir: bool,
}

/// The names of the directories among `entries`, in the order of the entries:
/// each directory under the root is a channel.
pub open spec fn spec_channels(entries: Seq<RootEntry>) -> Seq<Seq<char>>
    decreases entries.len(),
{
    if entries.len() == 0 {
        Seq::empty()
    } else if entries.last().is_dir {
        spec_channels(entries.drop_last()).push(entries.last().name@)
    } else {
        spec_channels(entries.drop_last())
    }
}

/// The channels among the entries of the root directory.
pub fn channels(entries: &Vec<RootEntry>) -> (names: Vec<String>)
    ensures
        names.deep_view() == spec_channels(entries@),
{
    let mut names: Vec<String> = Vec::new();
    let mut i: usize = 0;
    assert(names.deep_view() =~= spec_channels(entries@.take(0)));
    while i < entries.len()
        invariant
            i <= entries.len(),
            names.deep_view() == spec_channels(entries@.take(i as int)),
        decreases entries.len() - i,
    {
        let ghost before = names.deep_view();
        proof {
            let front = entries@.take(i + 1);
            assert(front.drop_last() =~= entries@.take(i as int));
            assert(front.last() == entries@[i as int]);
        }
        if entries[i].is_dir {
            names.push(entries[i].name.clone());
            assert(names.deep_view() =~= before.push(entries@[i as int].name@));
        }
        i += 1;
    }
    assert(entries@.take(i as int) =~= entries@);
    names
}

/// A name is listed exactly when a directory among the entries has it.
pub proof fn lemma_channels_are_the_directories(entries: Seq<RootEntry>, name: Seq<char>)
    ensures
        spec_channels(entries).contains(name) <==> exists|i: int|
            0 <= i < entries.len() && (#[trigger] entries[i]).is_dir && entries[i].name@ == name,
    decreases entries.len(),
{
    if entries.len() > 0 {
        let front = entries.drop_last();
        let last = entries.last();
        lemma_channels_are_the_directories(front, name);
        let listed = spec_channels(entries);
        if listed.contains(name) {
            let k = choose|k: int| 0 <= k < listed.len() && listed[k] == name;
            if last.is_dir && k == listed.len() - 1 {
                assert(entries[entries.len() - 1].is_dir);
            } else {
                assert(spec_channels(front)[k] == name);
                let i = choose|i: int|
                    0 <= i < front.len() && (#[trigger] front[i]).is_dir && front[i].name@ == name;
                assert(entries[i] == front[i]);
            }
        }
        if exists|i: int|
            0 <= i < entries.len() && (#[trigger] entries[i]).is_dir && entries[i].name@ == name {
            let i = choose|i: int|
                0 <= i < entries.len() && (#[trigger] entries[i]).is_dir && entries[i].name@
                    == name;
            if i < front.len() {
                assert(front[i] == entries[i]);
                let k = choose|k: int|
                    0 <= k < spec_channels(front).len() && spec_channels(front)[k] == name;
                assert(listed[k] == name);
            } else {
                assert(listed[listed.len() - 1] == name);
            }
        }
    }
}

} // verus!
