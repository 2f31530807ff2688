//! Response payloads of the administrative API, chiefly the watch list
//! joined with its overrides, sorted by title.

use vstd::prelude::*;
use vstd::multiset::Multiset;
use vstd::seq_lib::lemma_multiset_commutative;
use vstd::string::*;
use std::collections::HashMap;
use crate::anilist::data::MediaList;
use crate::anilist::data::MediaListGroup;
use crate::anilist::MediaListIdentifier;

verus! {

broadcast use vstd::seq_lib::group_to_multiset_ensures;

/// The overrides keyed by entry id: an optional replacement title and an
/// optional episode offset each.
pub type OverrideMap = HashMap<MediaListIdentifier, (Option<String>, Option<i64>)>;

/// One watch-list entry joined with its overrides.
#[derive(Debug, PartialEq)]
pub struct Anime {
    pub id: MediaListIdentifier,
    pub media_id: i32,
    pub title: String,
    pub episode_offset: Option<i64>,
    pub title_override: Option<String>,
}

/// An error message envelope.
#[derive(Debug)]
pub struct Error {
    pub error: String,
}

/// Basic user information.
#[derive(Debug)]
pub struct User {
    pub id: i64,
    pub name: String,
    pub expiry: i64,
}

/// The entry joined with its overrides under the given override map.
pub open spec fn built_anime(
    e: MediaList,
    m: Map<MediaListIdentifier, (Option<String>, Option<i64>)>,
) -> Anime {
    Anime {
        id: e.id,
        media_id: e.media.id,
        title: e.media.title.userPreferred,
        episode_offset: if m.contains_key(e.id) {
            m[e.id].1
        } else {
            Option::None
        },
        title_override: if m.contains_key(e.id) {
            m[e.id].0
        } else {
            Option::None
        },
    }
}

/// Entry ids are unique within a watch list.
pub open spec fn ids_unique(entries: Seq<MediaList>) -> bool {
    forall|i: int, j: int|
        0 <= i < j < entries.len() ==> (#[trigger] entries[i]).id != (#[trigger] entries[j]).id
}

/// The ids of the given entries.
pub open spec fn id_set(entries: Seq<MediaList>) -> Set<MediaListIdentifier> {
    Set::new(|k: MediaListIdentifier| exists|i: int| 0 <= i < entries.len() && (#[trigger] entries[i]).id == k)
}

/// Lexicographic order on character sequences, by code point.
pub open spec fn lex_le(a: Seq<char>, b: Seq<char>) -> bool
    decreases a.len(),
{
    if a.len() == 0 {
        true
    } else if b.len() == 0 {
        false
    } else if (a.first() as int) < (b.first() as int) {
        true
    } else if (a.first() as int) > (b.first() as int) {
        false
    } else {
        lex_le(a.drop_first(), b.drop_first())
    }
}

/// The order is total.
pub proof fn lemma_lex_le_total(a: Seq<char>, b: Seq<char>)
    ensures
        lex_le(a, b) || lex_le(b, a),
    decreases a.len(),
{
    if a.len() == 0 || b.len() == 0 {
    } else {
        lemma_lex_le_total(a.drop_first(), b.drop_first());
    }
}

/// Adjacent titles are in order.
pub open spec fn sorted_by_title(s: Seq<Anime>) -> bool {
    forall|i: int| 0 <= i && i + 1 < s.len() ==> lex_le((#[trigger] s[i]).title@, s[i + 1].title@)
}

/// Exact lexicographic comparison of two titles.
fn title_le(a: &String, b: &String) -> (r: bool)
    ensures
        r == lex_le(a@, b@),
{
    let an = a.as_str().unicode_len();
    let bn = b.as_str().unicode_len();
    let mut i: usize = 0;
    proof {
        assert(a@.skip(0) =~= a@);
        assert(b@.skip(0) =~= b@);
    }
    loop
        invariant
            an == a@.len(),
            bn == b@.len(),
            i <= an,
            i <= bn,
            lex_le(a@, b@) == lex_le(a@.skip(i as int), b@.skip(i as int)),
        decreases an - i,
    {
        if i == an {
            assert(a@.skip(i as int).len() == 0);
            return true;
        }
        if i == bn {
            assert(b@.skip(i as int).len() == 0);
            assert(a@.skip(i as int).len() > 0);
            return false;
        }
        let ca = a.as_str().get_char(i);
        let cb = b.as_str().get_char(i);
        proof {
            assert(a@.skip(i as int).first() == a@[i as int]);
            assert(b@.skip(i as int).first() == b@[i as int]);
            assert(a@.skip(i as int).drop_first() =~= a@.skip(i + 1));
            assert(b@.skip(i as int).drop_first() =~= b@.skip(i + 1));
        }
        if (ca as u32) < (cb as u32) {
            return true;
        }
        if (ca as u32) > (cb as u32) {
            return false;
        }
        i += 1;
    }
}

/// Inserting anywhere adds one occurrence to the multiset.
proof fn lemma_to_multiset_insert(s: Seq<Anime>, p: int, e: Anime)
    requires
        0 <= p <= s.len(),
    ensures
        s.insert(p, e).to_multiset() == s.to_multiset().insert(e),
{
    let left = s.subrange(0, p);
    let right = s.subrange(p, s.len() as int);
    assert(s =~= left + right);
    assert(s.insert(p, e) =~= left.push(e) + right);
    lemma_multiset_commutative(left, right);
    lemma_multiset_commutative(left.push(e), right);
    assert(left.push(e).to_multiset() =~= left.to_multiset().insert(e));
    assert(s.insert(p, e).to_multiset() =~= s.to_multiset().insert(e));
}

impl Anime {
    /// Joins each entry with its overrides, consuming the map's matching
    /// records, and returns the rows sorted by title.
    pub fn build(media_list_group: &MediaListGroup, overrides: &mut OverrideMap) -> (r: Vec<Anime>)
        requires
            ids_unique(media_list_group.entries@),
        ensures
            sorted_by_title(r@),
            r@.to_multiset() == media_list_group.entries@.map_values(
                |e: MediaList| built_anime(e, old(overrides)@),
            ).to_multiset(),
            final(overrides)@ == old(overrides)@.remove_keys(id_set(media_list_group.entries@)),
    {
        let ghost m0 = overrides@;
        let ghost entries = media_list_group.entries@;
        let ghost rows = entries.map_values(|e: MediaList| built_anime(e, m0));
        let n = media_list_group.entries.len();
        let mut items: Vec<Anime> = Vec::new();
        let mut i: usize = 0;
        while i < n
            invariant
                n == entries.len(),
                entries == media_list_group.entries@,
                rows == entries.map_values(|e: MediaList| built_anime(e, m0)),
                ids_unique(entries),
                i <= n,
                overrides@ == m0.remove_keys(id_set(entries.take(i as int))),
                items@ == rows.take(i as int),
            decreases n - i,
        {
            let entry = &media_list_group.entries[i];
            proof {
                assert(!id_set(entries.take(i as int)).contains(entry.id)) by {
                    if id_set(entries.take(i as int)).contains(entry.id) {
                        let t = choose|t: int|
                            0 <= t < i && (#[trigger] entries.take(i as int)[t]).id == entry.id;
                        assert(entries[t].id == entries[i as int].id);
                    }
                }
                assert(overrides@.contains_key(entry.id) == m0.contains_key(entry.id));
                if m0.contains_key(entry.id) {
                    assert(overrides@[entry.id] == m0[entry.id]);
                }
            }
            let removed = overrides.remove(&entry.id);
            let mut title_override: Option<String> = Option::None;
            let mut episode_offset: Option<i64> = Option::None;
            if let Option::Some(pair) = removed {
                let (t, o) = pair;
                title_override = t;
                episode_offset = o;
            }
            let row = Anime {
                id: entry.id,
                media_id: entry.media.id,
                title: entry.media.title.userPreferred.clone(),
                episode_offset,
                title_override,
            };
            proof {
                assert(row == built_anime(entries[i as int], m0));
                assert(id_set(entries.take(i + 1)) =~= id_set(entries.take(i as int)).insert(
                    entries[i as int].id,
                )) by {
                    assert forall|k: MediaListIdentifier|
                        id_set(entries.take(i + 1)).contains(k) == id_set(
                            entries.take(i as int),
                        ).insert(entries[i as int].id).contains(k) by {
                        if id_set(entries.take(i + 1)).contains(k) {
                            let t = choose|t: int|
                                0 <= t < i + 1 && (#[trigger] entries.take(i + 1)[t]).id == k;
                            if t < i {
                                assert(entries.take(i as int)[t].id == k);
                            }
                        }
                        if id_set(entries.take(i as int)).contains(k) {
                            let t = choose|t: int|
                                0 <= t < i && (#[trigger] entries.take(i as int)[t]).id == k;
                            assert(entries.take(i + 1)[t].id == k);
                        }
                        if k == entries[i as int].id {
                            assert(entries.take(i + 1)[i as int].id == k);
                        }
                    }
                }
                assert(overrides@ =~= m0.remove_keys(id_set(entries.take(i + 1))));
                assert(rows.take(i + 1) =~= rows.take(i as int).push(row));
            }
            items.push(row);
            i += 1;
        }
        proof {
            assert(entries.take(n as int) =~= entries);
            assert(rows.take(n as int) =~= rows);
        }
        // insertion sort by title
        let mut items = items;
        let mut result: Vec<Anime> = Vec::new();
        while items.len() > 0
            invariant
                rows == entries.map_values(|e: MediaList| built_anime(e, m0)),
                sorted_by_title(result@),
                result@.to_multiset().add(items@.to_multiset()) == rows.to_multiset(),
            decreases items.len(),
        {
            let ghost items_before = items@;
            let a = items.remove(0);
            proof {
                assert(items_before.remove(0).to_multiset() =~= items_before.to_multiset().remove(
                    items_before[0],
                ));
            }
            let mut p: usize = 0;
            while p < result.len() && title_le(&result[p].title, &a.title)
                invariant
                    p <= result@.len(),
                    sorted_by_title(result@),
                    forall|k: int| 0 <= k < p ==> lex_le((#[trigger] result@[k]).title@, a.title@),
                decreases result@.len() - p,
            {
                p += 1;
            }
            let ghost before = result@;
            proof {
                lemma_to_multiset_insert(before, p as int, a);
                if p < before.len() {
                    lemma_lex_le_total(before[p as int].title@, a.title@);
                }
            }
            result.insert(p, a);
            proof {
                assert forall|k: int| 0 <= k && k + 1 < result@.len() implies lex_le(
                    (#[trigger] result@[k]).title@,
                    result@[k + 1].title@,
                ) by {
                    if k + 1 < p {
                        assert(result@[k] == before[k]);
                        assert(result@[k + 1] == before[k + 1]);
                    } else if k + 1 == p {
                        assert(result@[k] == before[k]);
                        assert(result@[k + 1] == a);
                    } else if k == p {
                        assert(result@[k] == a);
                        assert(result@[k + 1] == before[k]);
                    } else {
                        assert(result@[k] == before[k - 1]);
                        assert(result@[k + 1] == before[k]);
                    }
                }
                assert(result@.to_multiset().add(items@.to_multiset()) =~= rows.to_multiset());
            }
        }
        proof {
            assert(items@.to_multiset() =~= Multiset::<Anime>::empty());
            assert(result@.to_multiset() =~= rows.to_multiset());
        }
        result
    }
}

} // verus!
