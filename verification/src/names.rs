//! A table from one string to another.

use vstd::hash_map::StringHashMap;
use vstd::prelude::*;
use vstd::string::*;

verus! {

/// The table that a list of pairs makes; a later pair replaces an earlier one with the same key.
pub open spec fn table_of(pairs: Seq<(Seq<char>, Seq<char>)>) -> Map<Seq<char>, Seq<char>>
    decreases pairs.len(),
{
    if pairs.len() == 0 {
        Map::empty()
    } else {
        table_of(pairs.drop_last()).insert(pairs.last().0, pairs.last().1)
    }
}

/// What stands under `key`, or `default`.
pub open spec fn entry_or(
    table: Map<Seq<char>, Seq<char>>,
    key: Seq<char>,
    default: Seq<char>,
) -> Seq<char> {
    if table.contains_key(key) {
        table[key]
    } else {
        default
    }
}

/// A table from one string to another.
pub struct Names {
    map: StringHashMap<String>,
}

impl View for Names {
    type V = Map<Seq<char>, Seq<char>>;

    closed spec fn view(&self) -> Map<Seq<char>, Seq<char>> {
        self.map@.map_values(|value: String| value@)
    }
}

impl Names {
    /// The empty table.
    pub fn new() -> (r: Names)
        ensures
            r@ == Map::<Seq<char>, Seq<char>>::empty(),
    {
        let r = Names { map: StringHashMap::new() };
        assert(r@ =~= Map::<Seq<char>, Seq<char>>::empty());
        r
    }

    /// The table that `pairs` make.
    pub fn from_pairs(pairs: &Vec<(String, String)>) -> (r: Names)
        ensures
            r@ == table_of(pairs.deep_view()),
    {
        let ghost all = pairs.deep_view();
        let mut r = Names::new();
        let mut i: usize = 0;
        assert(all.take(0) =~= Seq::<(Seq<char>, Seq<char>)>::empty());
        while i < pairs.len()
            invariant
                i <= pairs.len(),
                all == pairs.deep_view(),
                r@ == table_of(all.take(i as int)),
            decreases pairs.len() - i,
        {
            let ghost before = r@;
            let (key, value) = &pairs[i];
            r.map.insert(key.clone(), value.clone());
            proof {
                let next = all.take(i + 1);
                assert(next.drop_last() =~= all.take(i as int));
                assert(next.last() == (key@, value@));
                assert(r@ =~= before.insert(key@, value@));
            }
            i = i + 1;
        }
        assert(all.take(i as int) =~= all);
        r
    }

    /// What stands under `key`.
    pub fn get(&self, key: &str) -> (r: Option<&String>)
        ensures
            r is Some <==> self@.contains_key(key@),
            r matches Some(value) ==> value@ == self@[key@],
    {
        self.map.get(key)
    }
}

/// The pair at `i` is the last one with this key.
pub open spec fn is_last_with(pairs: Seq<(Seq<char>, Seq<char>)>, key: Seq<char>, i: int) -> bool {
    &&& 0 <= i < pairs.len()
    &&& pairs[i].0 == key
    &&& forall|j: int| i < j < pairs.len() ==> (#[trigger] pairs[j]).0 != key
}

/// Under a key stands the value of the last pair with that key, and the default where no pair has
/// it.
pub proof fn law_last_pair_stands(
    pairs: Seq<(Seq<char>, Seq<char>)>,
    key: Seq<char>,
    default: Seq<char>,
    i: int,
)
    ensures
        is_last_with(pairs, key, i) ==> table_of(pairs).contains_key(key) && table_of(pairs)[key]
            == pairs[i].1 && entry_or(table_of(pairs), key, default) == pairs[i].1,
        (forall|j: int| 0 <= j < pairs.len() ==> (#[trigger] pairs[j]).0 != key) ==> !table_of(
            pairs,
        ).contains_key(key) && entry_or(table_of(pairs), key, default) == default,
    decreases pairs.len(),
{
    if pairs.len() > 0 {
        let before = pairs.drop_last();
        law_last_pair_stands(before, key, default, i);
        assert(forall|j: int| 0 <= j < before.len() ==> #[trigger] before[j] == pairs[j]);
        if is_last_with(pairs, key, i) && i < before.len() {
            assert(is_last_with(before, key, i));
            assert(pairs[pairs.len() - 1].0 != key);
        }
        if forall|j: int| 0 <= j < pairs.len() ==> (#[trigger] pairs[j]).0 != key {
            assert(pairs[pairs.len() - 1].0 != key);
        }
    }
}

} // verus!
