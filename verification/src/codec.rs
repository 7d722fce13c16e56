//! The snapshot format: what a persisted snapshot denotes and how entry
//! sequences are encoded to and decoded from bytes.

use vstd::prelude::*;

verus! {

/// One persisted entry: a filesystem path and its cached value.
pub type Entry = (String, u64);

/// The view of a sequence of entries: each path as its character sequence.
pub open spec fn entry_views(s: Seq<Entry>) -> Seq<(Seq<char>, u64)> {
    s.map_values(|e: Entry| (e.0@, e.1))
}

/// The mapping that a sequence of entries denotes; a later entry for the same
/// key overrides an earlier one.
pub open spec fn entry_map(s: Seq<(Seq<char>, u64)>) -> Map<Seq<char>, u64>
    decreases s.len(),
{
    if s.len() == 0 {
        Map::empty()
    } else {
        entry_map(s.drop_last()).insert(s.last().0, s.last().1)
    }
}

/// Every key occurs at most once.
pub open spec fn keys_unique(s: Seq<(Seq<char>, u64)>) -> bool {
    forall|i: int, j: int| 0 <= i < j < s.len() ==> s[i].0 != s[j].0
}

/// Some entry carries the key `k`.
pub open spec fn has_key(s: Seq<(Seq<char>, u64)>, k: Seq<char>) -> bool {
    exists|i: int| 0 <= i < s.len() && s[i].0 == k
}

/// The denoted map contains exactly the keys that occur in the sequence.
pub proof fn lemma_entry_map_dom(s: Seq<(Seq<char>, u64)>)
    ensures
        forall|k: Seq<char>| #[trigger] entry_map(s).contains_key(k) <==> has_key(s, k),
    decreases s.len(),
{
    if s.len() > 0 {
        lemma_entry_map_dom(s.drop_last());
        assert forall|k: Seq<char>| #[trigger] entry_map(s).contains_key(k) <==> has_key(
            s,
            k,
        ) by {
            if entry_map(s).contains_key(k) {
                if k == s.last().0 {
                    assert(s[s.len() - 1].0 == k);
                    assert(has_key(s, k));
                } else {
                    assert(entry_map(s.drop_last()).contains_key(k));
                    assert(has_key(s.drop_last(), k));
                    let i = choose|i: int|
                        0 <= i < s.drop_last().len() && #[trigger] s.drop_last()[i].0 == k;
                    assert(s[i] == s.drop_last()[i]);
                    assert(s[i].0 == k);
                    assert(has_key(s, k));
                }
            }
            if has_key(s, k) {
                let i = choose|i: int| 0 <= i < s.len() && #[trigger] s[i].0 == k;
                if i < s.len() - 1 {
                    assert(s.drop_last()[i].0 == k);
                    assert(has_key(s.drop_last(), k));
                    assert(entry_map(s.drop_last()).contains_key(k));
                    assert(entry_map(s).contains_key(k));
                } else {
                    assert(k == s.last().0);
                    assert(entry_map(s).contains_key(k));
                }
            }
        }
    }
}

/// Under unique keys, the denoted map sends each entry's key to its value.
pub proof fn lemma_entry_map_index(s: Seq<(Seq<char>, u64)>, i: int)
    requires
        keys_unique(s),
        0 <= i < s.len(),
    ensures
        entry_map(s).contains_key(s[i].0),
        entry_map(s)[s[i].0] == s[i].1,
    decreases s.len(),
{
    if i < s.len() - 1 {
        lemma_entry_map_index(s.drop_last(), i);
        assert(s.drop_last()[i] == s[i]);
    }
}

/// Under unique keys, replacing the value of the entry at `i` denotes the
/// map with that entry's key reassigned.
pub proof fn lemma_entry_map_update(s: Seq<(Seq<char>, u64)>, i: int, v: u64)
    requires
        keys_unique(s),
        0 <= i < s.len(),
    ensures
        entry_map(s.update(i, (s[i].0, v))) == entry_map(s).insert(s[i].0, v),
    decreases s.len(),
{
    let t = s.update(i, (s[i].0, v));
    if i == s.len() - 1 {
        assert(t.drop_last() =~= s.drop_last());
        assert(entry_map(t) =~= entry_map(s).insert(s[i].0, v));
    } else {
        lemma_entry_map_update(s.drop_last(), i, v);
        assert(t.drop_last() =~= s.drop_last().update(i, (s[i].0, v)));
        assert(t.last() == s.last());
        assert(s[i].0 != s.last().0);
        assert(entry_map(t) =~= entry_map(s).insert(s[i].0, v));
    }
}

/// Under unique keys, deleting the entry at `i` denotes the map with that
/// entry's key removed.
pub proof fn lemma_entry_map_remove(s: Seq<(Seq<char>, u64)>, i: int)
    requires
        keys_unique(s),
        0 <= i < s.len(),
    ensures
        entry_map(s.remove(i)) == entry_map(s).remove(s[i].0),
    decreases s.len(),
{
    if i == s.len() - 1 {
        assert(s.remove(i) =~= s.drop_last());
        lemma_entry_map_dom(s.drop_last());
        assert(!has_key(s.drop_last(), s[i].0));
        assert(entry_map(s.drop_last()) =~= entry_map(s).remove(s[i].0));
    } else {
        lemma_entry_map_remove(s.drop_last(), i);
        assert(s.remove(i).drop_last() =~= s.drop_last().remove(i));
        assert(s.remove(i).last() == s.last());
        assert(s.drop_last()[i] == s[i]);
        assert(s[i].0 != s.last().0);
        assert(entry_map(s.remove(i)) =~= entry_map(s).remove(s[i].0));
    }
}

/// Under unique keys, the denoted map has exactly one key per entry.
pub proof fn lemma_entry_map_len(s: Seq<(Seq<char>, u64)>)
    requires
        keys_unique(s),
    ensures
        entry_map(s).dom().finite(),
        entry_map(s).dom().len() == s.len(),
    decreases s.len(),
{
    if s.len() > 0 {
        lemma_entry_map_len(s.drop_last());
        lemma_entry_map_dom(s.drop_last());
        assert(!has_key(s.drop_last(), s.last().0));
        assert(entry_map(s).dom() =~= entry_map(s.drop_last()).dom().insert(s.last().0));
    }
}

/// The bytes that the snapshot encoder produces for a sequence of entries.
/// The encoding depends on the entries alone.
pub uninterp spec fn encoding_of(entries: Seq<(Seq<char>, u64)>) -> Seq<u8>;

/// What the snapshot decoder yields for a byte string: the decoded entries'
/// views, or `None` when the bytes do not decode. The outcome depends on the
/// bytes alone.
pub uninterp spec fn decoding_of(bytes: Seq<u8>) -> Option<Seq<(Seq<char>, u64)>>;

/// Relies on `bincode::serialize`: the bytes it produces are a function of
/// the serialized value alone, named `encoding_of` here. For a vector of
/// path/value pairs it has no failure path — it writes length-prefixed
/// UTF-8 and fixed-width integers into a byte vector, whose writer never
/// errors — so the call is total.
#[verifier::external_body]
pub fn encode_entries(entries: &Vec<Entry>) -> (r: Vec<u8>)
    ensures
        r@ == encoding_of(entry_views(entries@)),
{
    bincode::serialize(entries).unwrap()
}

/// Relies on `bincode::deserialize`: the outcome is a function of the bytes
/// alone, named `decoding_of` here, and a byte string that
/// `bincode::serialize` produced for a value decodes back to an equal value.
#[verifier::external_body]
pub fn decode_entries(bytes: &Vec<u8>) -> (r: Result<Vec<Entry>, String>)
    ensures
        r matches Ok(v) ==> decoding_of(bytes@) == Some(entry_views(v@)),
        r is Err ==> decoding_of(bytes@) is None,
        r matches Ok(v) ==> (forall|e: Seq<(Seq<char>, u64)>|
            bytes@ == #[trigger] encoding_of(e) ==> entry_views(v@) == e),
        r is Err ==> (forall|e: Seq<(Seq<char>, u64)>| bytes@ != #[trigger] encoding_of(e)),
{
    match bincode::deserialize::<Vec<Entry>>(bytes.as_slice()) {
        Ok(v) => Ok(v),
        Err(e) => Err(format!("{}", e)),
    }
}

} // verus!
