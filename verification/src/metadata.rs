//! The metadata capability: a point lookup `tag_value(key) -> optional
//! string`, polymorphic over any backing store.  The engine only ever asks
//! for single keys; no ordering or iteration contract is required.

use vstd::prelude::*;

verus! {

/// A key/value metadata source.  The parser, binder and evaluator are
/// generic over this capability; test doubles and production backends
/// implement it independently.
pub trait Provider {
    /// The mathematical content of the store: a partial map from keys to
    /// values.  A key is present exactly when the map contains it.
    spec fn spec_map(&self) -> Map<Seq<char>, Seq<char>>;

    /// Look a single key up.  Returns the stored value when the key is
    /// present and `None` otherwise.
    fn tag_value(&self, key: &str) -> (r: Option<String>)
        ensures
            match r {
                Some(v) => self.spec_map().contains_key(key@) && v@ == self.spec_map()[key@],
                None => !self.spec_map().contains_key(key@),
            },
    ;
}

/// The partial map described by an association list, earliest entry
/// winning on duplicate keys.
pub open spec fn entries_map(entries: Seq<(String, String)>) -> Map<Seq<char>, Seq<char>>
    decreases entries.len(),
{
    if entries.len() == 0 {
        Map::empty()
    } else {
        entries_map(entries.drop_first()).insert(entries[0].0@, entries[0].1@)
    }
}

/// A metadata source backed by an in-memory list of key/value pairs.
/// Lookup scans in order, so the earliest entry for a key wins.
pub struct MetadataProvider {
    entries: Vec<(String, String)>,
}

impl MetadataProvider {
    pub fn new(metadata_dict: Vec<(String, String)>) -> (r: MetadataProvider)
        ensures
            r.spec_map() == entries_map(metadata_dict@),
    {
        MetadataProvider { entries: metadata_dict }
    }
}

/// If no entry among the first `i` has key `k`, the map of the whole list
/// agrees with the map of the remainder on `k`.
proof fn lemma_entries_map_skip(entries: Seq<(String, String)>, i: int, k: Seq<char>)
    requires
        0 <= i <= entries.len(),
        forall|j: int| 0 <= j < i ==> #[trigger] entries[j].0@ != k,
    ensures
        entries_map(entries).contains_key(k) == entries_map(entries.skip(i)).contains_key(k),
        entries_map(entries).contains_key(k) ==> entries_map(entries)[k] == entries_map(
            entries.skip(i),
        )[k],
    decreases i,
{
    if i > 0 {
        assert(entries[0].0@ != k);
        lemma_entries_map_skip(entries.drop_first(), i - 1, k);
        assert(entries.drop_first().skip(i - 1) =~= entries.skip(i));
    } else {
        assert(entries.skip(0) =~= entries);
    }
}

impl Provider for MetadataProvider {
    closed spec fn spec_map(&self) -> Map<Seq<char>, Seq<char>> {
        entries_map(self.entries@)
    }

    fn tag_value(&self, key: &str) -> (r: Option<String>) {
        let n = self.entries.len();
        let mut i: usize = 0;
        while i < n
            invariant
                n == self.entries@.len(),
                0 <= i <= n,
                forall|j: int| 0 <= j < i ==> #[trigger] self.entries@[j].0@ != key@,
            decreases n - i,
        {
            if crate::text::str_eq(self.entries[i].0.as_str(), key) {
                proof {
                    lemma_entries_map_skip(self.entries@, i as int, key@);
                    assert(self.entries@.skip(i as int)[0] == self.entries@[i as int]);
                    assert(self.entries@.skip(i as int).drop_first() =~= self.entries@.skip(
                        i as int + 1,
                    ));
                }
                return Some(self.entries[i].1.clone());
            }
            i = i + 1;
        }
        proof {
            lemma_entries_map_skip(self.entries@, n as int, key@);
            assert(self.entries@.skip(n as int) =~= Seq::<(String, String)>::empty());
        }
        None
    }
}

} // verus!
