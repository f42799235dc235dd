//! Maps from names, built from lists of named values.

use vstd::hash_map::StringHashMap;
use vstd::prelude::*;

verus! {

/// Entries for a list of named values; of two with one name the later counts.
pub open spec fn entries_of<V>(items: Seq<(Seq<char>, V)>) -> Map<Seq<char>, V>
    decreases items.len(),
{
    if items.len() == 0 {
        Map::empty()
    } else {
        entries_of(items.drop_last()).insert(items.last().0, items.last().1)
    }
}

/// Named values by their names.
pub open spec fn named<V>(items: Seq<(String, V)>) -> Seq<(Seq<char>, V)> {
    items.map_values(|item: (String, V)| (item.0@, item.1))
}

/// The map of a list of named values; of two with one name the later counts.
pub fn map_of<V: Copy>(items: &Vec<(String, V)>) -> (map: StringHashMap<V>)
    ensures
        map@ == entries_of(named(items@)),
{
    let mut map: StringHashMap<V> = StringHashMap::new();
    let mut i: usize = 0;
    proof {
        assert(named(items@).take(0) =~= Seq::empty());
    }
    while i < items.len()
        invariant
            i <= items@.len(),
            map@ == entries_of(named(items@).take(i as int)),
        decreases items@.len() - i,
    {
        map.insert(items[i].0.clone(), items[i].1);
        proof {
            let longer = named(items@).take(i + 1);
            assert(longer.drop_last() =~= named(items@).take(i as int));
            assert(longer.last() == (items@[i as int].0@, items@[i as int].1));
        }
        i = i + 1;
    }
    proof {
        assert(named(items@).take(i as int) =~= named(items@));
    }
    map
}

/// Each name stands for the value of the last item with it, and no other name is there.
pub proof fn the_last_item_of_a_name_counts<V>(items: Seq<(Seq<char>, V)>, i: int, name: Seq<char>)
    ensures
        0 <= i < items.len() && items[i].0 == name && (forall|k: int|
            i < k < items.len() ==> (#[trigger] items[k]).0 != name) ==> entries_of(
            items,
        ).contains_key(name) && entries_of(items)[name] == items[i].1,
        (forall|k: int| 0 <= k < items.len() ==> (#[trigger] items[k]).0 != name) ==> !entries_of(
            items,
        ).contains_key(name),
    decreases items.len(),
{
    if items.len() > 0 {
        let shorter = items.drop_last();
        the_last_item_of_a_name_counts(shorter, i, name);
        if i < shorter.len() {
            assert(items[items.len() - 1] == items.last());
        }
    }
}

/// Named items keep their names, their values and their order.
pub proof fn items_keep_their_names<V>(items: Seq<(String, V)>, i: int)
    ensures
        named(items).len() == items.len(),
        0 <= i < items.len() ==> named(items)[i].0 == items[i].0@ && named(items)[i].1 == items[i].1,
{
}

} // verus!
