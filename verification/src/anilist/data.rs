//! Watch-list data and the title matcher: scoring a query title against
//! each entry's known title variants and selecting the best entry.

use vstd::prelude::*;
use crate::anilist::MediaListIdentifier;
use crate::anilist::UserIdentifier;
use crate::levenshtein::lemma_lev_bound;
use crate::levenshtein::lev;
use crate::levenshtein::levenshtein;
use crate::massage::massage;
use crate::massage::massaged;
use crate::score::frac_lt;
use crate::score::Score;
use crate::utils::chars_eq;
use crate::utils::chars_of;
use crate::utils::lower_of;
use crate::utils::lowercase;

verus! {

#[derive(Clone, Debug)]
pub struct Media {
    pub id: i32,
    pub title: MediaTitle,
}

#[derive(Clone, Debug)]
pub struct MediaList {
    pub id: MediaListIdentifier,
    pub progress: i32,
    pub media: Media,
}

#[derive(Debug)]
pub struct MediaListCollection {
    pub lists: Vec<MediaListGroup>,
}

#[allow(non_snake_case)]
#[derive(Debug)]
pub struct MediaListCollectionData {
    pub MediaListCollection: MediaListCollection,
}

#[derive(Clone, Debug)]
pub struct MediaListGroup {
    pub entries: Vec<MediaList>,
}

#[allow(non_snake_case)]
#[derive(Clone, Debug)]
pub struct MediaTitle {
    pub romaji: Option<String>,
    pub english: Option<String>,
    pub native: Option<String>,
    pub userPreferred: String,
}

#[derive(Debug)]
pub struct SaveMediaListEntry {
    pub progress: i32,
}

#[allow(non_snake_case)]
#[derive(Debug)]
pub struct SaveMediaListEntryData {
    pub SaveMediaListEntry: SaveMediaListEntry,
}

#[derive(Debug)]
pub struct User {
    pub id: UserIdentifier,
    pub name: String,
}

#[allow(non_snake_case)]
#[derive(Debug)]
pub struct ViewerData {
    pub Viewer: User,
}

/// The lower-cased character sequences of one optional title variant.
pub open spec fn option_variant(o: Option<String>) -> Seq<Seq<char>> {
    match o {
        Option::Some(s) => seq![lower_of(s@)],
        Option::None => Seq::empty(),
    }
}

/// The available title variants, lower-cased, in matching order.  The
/// display title is never matched against.
pub open spec fn variant_list(t: MediaTitle) -> Seq<Seq<char>> {
    option_variant(t.romaji) + option_variant(t.english) + option_variant(t.native)
}

pub open spec fn spec_max(a: nat, b: nat) -> nat {
    if a >= b {
        a
    } else {
        b
    }
}

/// Normalized edit similarity between two sequences, as an exact fraction:
/// `(m - d) / m` for `d` the edit distance and `m` the longer length, and
/// 1 when both are empty.
pub open spec fn direct_frac(q: Seq<char>, t: Seq<char>) -> (int, int) {
    let m = spec_max(q.len(), t.len());
    if m == 0 {
        (1, 1)
    } else {
        (m - lev(q, t), m as int)
    }
}

/// The fallback penalty: one twentieth subtracted, floored at zero.
pub open spec fn penalized(f: (int, int)) -> (int, int) {
    if 20 * f.0 - f.1 > 0 {
        (20 * f.0 - f.1, 20 * f.1)
    } else {
        (0, 1)
    }
}

/// Similarity of the massaged sequences, with the fallback penalty.
pub open spec fn fallback_frac(q: Seq<char>, t: Seq<char>) -> (int, int) {
    penalized(direct_frac(massage(q), massage(t)))
}

/// Whether a score reaches the minimum confidence of four fifths.
pub open spec fn confident(f: (int, int)) -> bool {
    !frac_lt(f, (4, 5))
}

/// Keeps the incumbent unless the candidate is strictly better.
pub open spec fn step_best(inc: (int, int), cand: (int, int)) -> (int, int) {
    if frac_lt(inc, cand) {
        cand
    } else {
        inc
    }
}

/// Best direct similarity across the variants, scanned in order from zero.
pub open spec fn best_direct(q: Seq<char>, vs: Seq<Seq<char>>) -> (int, int)
    decreases vs.len(),
{
    if vs.len() == 0 {
        (0, 1)
    } else {
        step_best(best_direct(q, vs.drop_last()), direct_frac(q, vs.last()))
    }
}

/// Best fallback similarity across the variants, continuing from `init`.
pub open spec fn best_fallback(q: Seq<char>, vs: Seq<Seq<char>>, init: (int, int)) -> (int, int)
    decreases vs.len(),
{
    if vs.len() == 0 {
        init
    } else {
        step_best(best_fallback(q, vs.drop_last(), init), fallback_frac(q, vs.last()))
    }
}

/// Whether some variant equals the query exactly.
pub open spec fn has_exact(q: Seq<char>, vs: Seq<Seq<char>>) -> bool {
    exists|i: int| 0 <= i < vs.len() && vs[i] == q
}

/// The confidence a title earns against a lower-cased query: 1 on an exact
/// variant hit; otherwise the best direct similarity, returned as soon as
/// it is confident; otherwise the best across direct and fallback passes.
#[verifier::opaque]
pub open spec fn title_frac(q: Seq<char>, t: MediaTitle) -> (int, int) {
    let vs = variant_list(t);
    if has_exact(q, vs) {
        (1, 1)
    } else {
        let bd = best_direct(q, vs);
        if confident(bd) {
            bd
        } else {
            best_fallback(q, vs, bd)
        }
    }
}

/// Whether the entry's title has an exact variant hit for the query.
pub open spec fn entry_exact(q: Seq<char>, e: MediaList) -> bool {
    has_exact(q, variant_list(e.media.title))
}

/// Index of the first entry with an exact hit; the length if none.
pub open spec fn first_exact(q: Seq<char>, entries: Seq<MediaList>) -> int
    decreases entries.len(),
{
    if entries.len() == 0 {
        0
    } else if entry_exact(q, entries.first()) {
        0
    } else {
        1 + first_exact(q, entries.drop_first())
    }
}

/// The best-scoring entry index and its confidence; index -1 while no
/// entry's confidence exceeds zero.  Earlier entries win ties.
pub open spec fn best_entry(q: Seq<char>, entries: Seq<MediaList>) -> (int, (int, int))
    decreases entries.len(),
{
    if entries.len() == 0 {
        (-1, (0, 1))
    } else {
        let prev = best_entry(q, entries.drop_last());
        let cand = title_frac(q, entries.last().media.title);
        if frac_lt(prev.1, cand) {
            ((entries.len() - 1) as int, cand)
        } else {
            prev
        }
    }
}

/// The matcher's selection: the first exact hit if any, else the single
/// best-scoring entry provided it is confident, else none.
pub open spec fn match_selection(q: Seq<char>, entries: Seq<MediaList>) -> Option<int> {
    if first_exact(q, entries) < entries.len() {
        Option::Some(first_exact(q, entries))
    } else {
        let best = best_entry(q, entries);
        if best.0 >= 0 && confident(best.1) {
            Option::Some(best.0)
        } else {
            Option::None
        }
    }
}

pub proof fn lemma_first_exact_bounds(q: Seq<char>, entries: Seq<MediaList>)
    ensures
        0 <= first_exact(q, entries) <= entries.len(),
        first_exact(q, entries) < entries.len() ==> entry_exact(
            q,
            entries[first_exact(q, entries)],
        ),
        forall|k: int| 0 <= k < first_exact(q, entries) ==> !entry_exact(q, entries[k]),
    decreases entries.len(),
{
    if entries.len() == 0 {
    } else if entry_exact(q, entries.first()) {
    } else {
        lemma_first_exact_bounds(q, entries.drop_first());
        assert forall|k: int| 0 <= k < first_exact(q, entries) implies !entry_exact(
            q,
            entries[k],
        ) by {
            if k > 0 {
                assert(entries.drop_first()[k - 1] == entries[k]);
            }
        }
        if first_exact(q, entries) < entries.len() {
            assert(entries.drop_first()[first_exact(q, entries) - 1]
                == entries[first_exact(q, entries)]);
        }
    }
}

proof fn lemma_first_exact_at(q: Seq<char>, entries: Seq<MediaList>, i: int)
    requires
        0 <= i < entries.len(),
        entry_exact(q, entries[i]),
        forall|k: int| 0 <= k < i ==> !entry_exact(q, entries[k]),
    ensures
        first_exact(q, entries) == i,
{
    lemma_first_exact_bounds(q, entries);
    if first_exact(q, entries) < i {
        assert(entry_exact(q, entries[first_exact(q, entries)]));
    }
    if first_exact(q, entries) > i {
        assert(!entry_exact(q, entries[i]));
    }
}

proof fn lemma_best_entry_bounds(q: Seq<char>, entries: Seq<MediaList>)
    ensures
        -1 <= best_entry(q, entries).0 < entries.len(),
        best_entry(q, entries).0 >= 0 ==> best_entry(q, entries).1 == title_frac(
            q,
            entries[best_entry(q, entries).0].media.title,
        ),
        best_entry(q, entries).0 == -1 ==> best_entry(q, entries).1 == (0int, 1int),
    decreases entries.len(),
{
    if entries.len() == 0 {
    } else {
        lemma_best_entry_bounds(q, entries.drop_last());
        let prev = best_entry(q, entries.drop_last());
        if prev.0 >= 0 {
            assert(entries.drop_last()[prev.0] == entries[prev.0]);
        }
        assert(entries.last() == entries[entries.len() - 1]);
    }
}

/// Exact-match precedence: the first entry with an exact variant hit is
/// the selection, whatever the remaining entries would have scored.
pub proof fn lemma_exact_match_precedence(q: Seq<char>, entries: Seq<MediaList>, i: int)
    requires
        0 <= i < entries.len(),
        entry_exact(q, entries[i]),
        forall|k: int| 0 <= k < i ==> !entry_exact(q, entries[k]),
    ensures
        match_selection(q, entries) == Option::Some(i),
{
    lemma_first_exact_at(q, entries, i);
}

/// No-match safety: when no entry reaches the minimum confidence, the
/// matcher selects nothing rather than a low-confidence guess.
pub proof fn lemma_no_match_safety(q: Seq<char>, entries: Seq<MediaList>)
    requires
        forall|i: int|
            0 <= i < entries.len() ==> !confident(
                #[trigger] title_frac(q, entries[i].media.title),
            ),
    ensures
        match_selection(q, entries) is None,
{
    assert forall|i: int| 0 <= i < entries.len() implies !entry_exact(q, entries[i]) by {
        if entry_exact(q, entries[i]) {
            reveal(title_frac);
            assert(title_frac(q, entries[i].media.title) == (1int, 1int));
            assert(confident((1int, 1int)));
        }
    }
    lemma_first_exact_bounds(q, entries);
    if first_exact(q, entries) < entries.len() {
        assert(entry_exact(q, entries[first_exact(q, entries)]));
    }
    lemma_best_entry_bounds(q, entries);
    let best = best_entry(q, entries);
    if best.0 >= 0 {
        assert(!confident(title_frac(q, entries[best.0].media.title)));
    }
}

proof fn lemma_best_entry_step(q: Seq<char>, entries: Seq<MediaList>, i: int)
    requires
        0 <= i < entries.len(),
    ensures
        best_entry(q, entries.take(i + 1)) == (if frac_lt(
            best_entry(q, entries.take(i)).1,
            title_frac(q, entries[i].media.title),
        ) {
            (i, title_frac(q, entries[i].media.title))
        } else {
            best_entry(q, entries.take(i))
        }),
{
    assert(entries.take(i + 1).drop_last() =~= entries.take(i));
    assert(entries.take(i + 1).last() == entries[i]);
}

proof fn lemma_best_direct_step(q: Seq<char>, vs: Seq<Seq<char>>, i: int)
    requires
        0 <= i < vs.len(),
    ensures
        best_direct(q, vs.take(i + 1)) == step_best(
            best_direct(q, vs.take(i)),
            direct_frac(q, vs[i]),
        ),
{
    assert(vs.take(i + 1).drop_last() =~= vs.take(i));
    assert(vs.take(i + 1).last() == vs[i]);
}

proof fn lemma_best_fallback_step(q: Seq<char>, vs: Seq<Seq<char>>, init: (int, int), i: int)
    requires
        0 <= i < vs.len(),
    ensures
        best_fallback(q, vs.take(i + 1), init) == step_best(
            best_fallback(q, vs.take(i), init),
            fallback_frac(q, vs[i]),
        ),
{
    assert(vs.take(i + 1).drop_last() =~= vs.take(i));
    assert(vs.take(i + 1).last() == vs[i]);
}

/// The views of a list of character vectors.
pub open spec fn views_of(ts: Seq<Vec<char>>) -> Seq<Seq<char>> {
    ts.map_values(|t: Vec<char>| t@)
}

impl MediaTitle {
    /// Scores a lower-cased query against this title's variants.
    #[verifier::rlimit(60)]
    pub fn find_match(&self, query: &Vec<char>) -> (s: Score)
        ensures
            s.wf(),
            s.frac() == title_frac(query@, *self),
            (s is Exact) == has_exact(query@, variant_list(*self)),
    {
        let ghost vs = variant_list(*self);
        let mut titles: Vec<Vec<char>> = Vec::new();
        if let Option::Some(t) = &self.romaji {
            let low = lowercase(t.as_str());
            titles.push(chars_of(low.as_str()));
        }
        if let Option::Some(t) = &self.english {
            let low = lowercase(t.as_str());
            titles.push(chars_of(low.as_str()));
        }
        if let Option::Some(t) = &self.native {
            let low = lowercase(t.as_str());
            titles.push(chars_of(low.as_str()));
        }
        proof {
            assert(views_of(titles@) =~= vs);
        }
        let n = titles.len();

        // Exact pass: any variant equal to the query short-circuits.
        let mut i: usize = 0;
        while i < n
            invariant
                n == titles@.len(),
                i <= n,
                views_of(titles@) =~= vs,
                vs == variant_list(*self),
                forall|k: int| 0 <= k < i ==> vs[k] != query@,
            decreases n - i,
        {
            if chars_eq(&titles[i], query) {
                proof {
                    assert(vs[i as int] == query@);
                    reveal(title_frac);
                }
                return Score::Exact;
            }
            proof {
                assert(vs[i as int] == titles@[i as int]@);
            }
            i += 1;
        }
        proof {
            assert(!has_exact(query@, vs));
        }

        // Direct pass over the lower-cased variants.
        let mut best = Score::zero();
        let mut i: usize = 0;
        while i < n
            invariant
                n == titles@.len(),
                i <= n,
                views_of(titles@) =~= vs,
                vs == variant_list(*self),
                best.wf(),
                !(best is Exact),
                best.frac() == best_direct(query@, vs.take(i as int)),
            decreases n - i,
        {
            let d = levenshtein(query, &titles[i]);
            let ql = query.len();
            let tl = titles[i].len();
            let m = if ql >= tl {
                ql
            } else {
                tl
            };
            proof {
                lemma_lev_bound(query@, titles@[i as int]@);
            }
            let cand = if m == 0 {
                Score::Direct { dist: 0, len: 1 }
            } else {
                Score::Direct { dist: d, len: m }
            };
            proof {
                assert(vs[i as int] == titles@[i as int]@);
                assert(cand.wf());
                assert(cand.frac() == direct_frac(query@, vs[i as int]));
                lemma_best_direct_step(query@, vs, i as int);
            }
            if cand.is_gt(&best) {
                best = cand;
            }
            i += 1;
        }
        proof {
            assert(vs.take(n as int) =~= vs);
            reveal(title_frac);
        }
        if best.is_confident() {
            return best;
        }

        // Fallback pass over the massaged variants, with the penalty.
        let mq = massaged(query);
        let ghost bd = best_direct(query@, vs);
        let mut i: usize = 0;
        while i < n
            invariant
                n == titles@.len(),
                i <= n,
                views_of(titles@) =~= vs,
                vs == variant_list(*self),
                mq@ == massage(query@),
                bd == best_direct(query@, vs),
                best.wf(),
                !(best is Exact),
                best.frac() == best_fallback(query@, vs.take(i as int), bd),
            decreases n - i,
        {
            let mt = massaged(&titles[i]);
            let d = levenshtein(&mq, &mt);
            let ml = mq.len();
            let tl = mt.len();
            let m = if ml >= tl {
                ml
            } else {
                tl
            };
            proof {
                lemma_lev_bound(mq@, mt@);
            }
            let cand = if m == 0 {
                Score::Fallback { dist: 0, len: 1 }
            } else {
                Score::Fallback { dist: d, len: m }
            };
            proof {
                assert(vs[i as int] == titles@[i as int]@);
                assert(cand.wf());
                assert(cand.frac() == fallback_frac(query@, vs[i as int]));
                lemma_best_fallback_step(query@, vs, bd, i as int);
            }
            if cand.is_gt(&best) {
                best = cand;
            }
            i += 1;
        }
        proof {
            assert(vs.take(n as int) =~= vs);
            reveal(title_frac);
        }
        best
    }
}

/// Index of the first entry with the given id; the length if none.
pub open spec fn id_index(entries: Seq<MediaList>, id: MediaListIdentifier) -> int
    decreases entries.len(),
{
    if entries.len() == 0 {
        0
    } else if entries.first().id == id {
        0
    } else {
        1 + id_index(entries.drop_first(), id)
    }
}

pub proof fn lemma_id_index_bounds(entries: Seq<MediaList>, id: MediaListIdentifier)
    ensures
        0 <= id_index(entries, id) <= entries.len(),
        id_index(entries, id) < entries.len() ==> entries[id_index(entries, id)].id == id,
        forall|k: int| 0 <= k < id_index(entries, id) ==> entries[k].id != id,
    decreases entries.len(),
{
    if entries.len() == 0 {
    } else if entries.first().id == id {
    } else {
        lemma_id_index_bounds(entries.drop_first(), id);
        assert forall|k: int| 0 <= k < id_index(entries, id) implies entries[k].id != id by {
            if k > 0 {
                assert(entries.drop_first()[k - 1] == entries[k]);
            }
        }
        if id_index(entries, id) < entries.len() {
            assert(entries.drop_first()[id_index(entries, id) - 1] == entries[id_index(
                entries,
                id,
            )]);
        }
    }
}

/// The entries of the given groups, concatenated in order.
pub open spec fn concat_entries(lists: Seq<MediaListGroup>) -> Seq<MediaList>
    decreases lists.len(),
{
    if lists.len() == 0 {
        Seq::empty()
    } else {
        lists.first().entries@ + concat_entries(lists.drop_first())
    }
}

impl MediaListGroup {
    /// Looks an entry up by its list-entry id; the first hit wins.
    pub fn find_id(&self, id: &MediaListIdentifier) -> (r: Option<&MediaList>)
        ensures
            match r {
                Option::Some(m) => id_index(self.entries@, *id) < self.entries@.len() && *m
                    == self.entries@[id_index(self.entries@, *id)],
                Option::None => id_index(self.entries@, *id) == self.entries@.len(),
            },
    {
        let n = self.entries.len();
        let mut i: usize = 0;
        while i < n
            invariant
                n == self.entries@.len(),
                i <= n,
                forall|k: int| 0 <= k < i ==> self.entries@[k].id != *id,
            decreases n - i,
        {
            if self.entries[i].id == *id {
                proof {
                    lemma_id_index_at(self.entries@, *id, i as int);
                }
                return Option::Some(&self.entries[i]);
            }
            i += 1;
        }
        proof {
            lemma_id_index_bounds(self.entries@, *id);
            if id_index(self.entries@, *id) < self.entries@.len() {
                assert(self.entries@[id_index(self.entries@, *id)].id == *id);
            }
        }
        Option::None
    }

    /// Scores every entry against the lower-cased query and returns the
    /// selection: the first exact hit immediately, else the best-scoring
    /// entry if it reaches the minimum confidence.
    #[verifier::rlimit(60)]
    pub fn find_match(&self, title: &String) -> (r: Option<&MediaList>)
        ensures
            match r {
                Option::Some(m) => match_selection(lower_of(title@), self.entries@) is Some && *m
                    == self.entries@[match_selection(lower_of(title@), self.entries@)->0],
                Option::None => match_selection(lower_of(title@), self.entries@) is None,
            },
    {
        let ghost qs = lower_of(title@);
        let low = lowercase(title.as_str());
        let q = chars_of(low.as_str());
        let n = self.entries.len();
        let mut best = Score::zero();
        let mut best_idx: usize = 0;
        let mut has_best = false;
        let mut i: usize = 0;
        while i < n
            invariant
                n == self.entries@.len(),
                i <= n,
                qs == lower_of(title@),
                q@ == qs,
                forall|k: int| 0 <= k < i ==> !entry_exact(qs, self.entries@[k]),
                best.wf(),
                has_best ==> best_idx < i,
                best_entry(qs, self.entries@.take(i as int)) == (if has_best {
                    (best_idx as int, best.frac())
                } else {
                    (-1, (0, 1))
                }),
                !has_best ==> best == Score::spec_zero(),
            decreases n - i,
        {
            let s = self.entries[i].media.title.find_match(&q);
            proof {
                lemma_best_entry_step(qs, self.entries@, i as int);
            }
            if let Score::Exact = s {
                proof {
                    assert(entry_exact(qs, self.entries@[i as int]));
                    lemma_first_exact_at(qs, self.entries@, i as int);
                    assert(first_exact(qs, self.entries@) == i as int);
                    assert(match_selection(qs, self.entries@) == Option::Some(i as int));
                }
                return Option::Some(&self.entries[i]);
            }
            if s.is_gt(&best) {
                best = s;
                best_idx = i;
                has_best = true;
            }
            i += 1;
        }
        proof {
            assert(self.entries@.take(n as int) =~= self.entries@);
            lemma_first_exact_bounds(qs, self.entries@);
            if first_exact(qs, self.entries@) < self.entries@.len() {
                assert(entry_exact(qs, self.entries@[first_exact(qs, self.entries@)]));
            }
        }
        if has_best {
            if best.is_confident() {
                return Option::Some(&self.entries[best_idx]);
            }
        }
        Option::None
    }

    pub fn empty() -> (r: Self)
        ensures
            r.entries@ == Seq::<MediaList>::empty(),
    {
        Self { entries: Vec::new() }
    }

    /// Flattens status-grouped sublists into one watch list, keeping order.
    pub fn from_lists(lists: Vec<MediaListGroup>) -> (r: Self)
        ensures
            r.entries@ == concat_entries(lists@),
    {
        let ghost orig = lists@;
        let mut lists = lists;
        let mut collected = MediaListGroup::empty();
        while lists.len() > 0
            invariant
                collected.entries@ + concat_entries(lists@) == concat_entries(orig),
            decreases lists.len(),
        {
            let ghost before = lists@;
            let mut group = lists.remove(0);
            proof {
                assert(lists@ =~= before.drop_first());
                assert(group == before.first());
                assert(concat_entries(before) == group.entries@ + concat_entries(lists@));
            }
            let ghost had = collected.entries@;
            collected.entries.append(&mut group.entries);
            proof {
                assert(collected.entries@ + concat_entries(lists@) =~= concat_entries(orig));
            }
        }
        proof {
            assert(collected.entries@ + concat_entries(lists@) == concat_entries(orig));
            assert(collected.entries@ =~= concat_entries(orig));
        }
        collected
    }
}

proof fn lemma_id_index_at(entries: Seq<MediaList>, id: MediaListIdentifier, i: int)
    requires
        0 <= i < entries.len(),
        entries[i].id == id,
        forall|k: int| 0 <= k < i ==> entries[k].id != id,
    ensures
        id_index(entries, id) == i,
{
    lemma_id_index_bounds(entries, id);
    if id_index(entries, id) < i {
        assert(entries[id_index(entries, id)].id == id);
    }
    if id_index(entries, id) > i {
        assert(entries[i].id != id);
    }
}

} // verus!
