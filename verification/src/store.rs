//! The snapshots of every character, filed by their names.

use crate::holdings::{
    filed_as, names_before, names_of, same_holdings, unknown_among, CharacterHoldings, Key, Names,
};
use crate::records::{reads_as, HoldingRecord, ItemStats, LootAction};
use crate::text::{alike, cat2, small_text};
use vstd::prelude::*;
use vstd::string::*;

verus! {

struct Entry {
    key: Key,
    held: CharacterHoldings,
}

/// Every snapshot known, by the names of its character.
pub struct HoldingsStore {
    entries: Vec<Entry>,
    /// Where snapshots are written; `None` keeps them in memory only.
    dir: Option<String>,
}

/// Snapshots in the order of their names, each name once.
pub open spec fn in_file(s: Seq<CharacterHoldings>) -> bool {
    forall|i: int, j: int|
        0 <= i < j < s.len() ==> names_before((#[trigger] s[i]).names(), (#[trigger] s[j]).names())
}

/// The snapshot at `i` is filed under these names.
pub open spec fn filed_at(s: Seq<CharacterHoldings>, names: Names, i: int) -> bool {
    0 <= i < s.len() && s[i].names() == names
}

/// What is known of each character.
pub open spec fn known(s: Seq<CharacterHoldings>) -> Map<Names, CharacterHoldings> {
    Map::new(
        |names: Names| exists|i: int| filed_at(s, names, i),
        |names: Names| s[choose|i: int| filed_at(s, names, i)],
    )
}

proof fn lemma_known(s: Seq<CharacterHoldings>, i: int)
    requires
        in_file(s),
        0 <= i < s.len(),
    ensures
        known(s).contains_key(s[i].names()),
        known(s)[s[i].names()] == s[i],
{
    let names = s[i].names();
    assert(filed_at(s, names, i));
    let j = choose|j: int| filed_at(s, names, j);
    lemma_names(names, names, names);
    if i != j {
        if i < j {
            assert(names_before(s[i].names(), s[j].names()));
        } else {
            assert(names_before(s[j].names(), s[i].names()));
        }
    }
}

proof fn lemma_names(a: Names, b: Names, c: Names)
    ensures
        !names_before(a, a),
        names_before(a, b) && names_before(b, c) ==> names_before(a, c),
        names_before(a, b) || names_before(b, a) || a == b,
        !(names_before(a, b) && names_before(b, a)),
{
    crate::holdings::lemma_names_in_order(a, b, c);
}

/// A snapshot put in its place is known, and nothing else is lost.
proof fn lemma_put(s: Seq<CharacterHoldings>, i: int, h: CharacterHoldings, t: Seq<CharacterHoldings>)
    requires
        in_file(s),
        0 <= i <= s.len(),
        forall|k: int| 0 <= k < i ==> names_before((#[trigger] s[k]).names(), h.names()),
        (i < s.len() && s[i].names() == h.names() && t == s.update(i, h)) || ((i < s.len()
            ==> names_before(h.names(), s[i].names())) && t == s.insert(i, h)),
    ensures
        in_file(t),
        known(t) =~= known(s).insert(h.names(), h),
{
    assert forall|a: int, b: int| 0 <= a < b < t.len() implies names_before(
        (#[trigger] t[a]).names(),
        (#[trigger] t[b]).names(),
    ) by {
        let gap: int = if t.len() == s.len() {
            0
        } else {
            1
        };
        if b < i {
            assert(names_before(s[a].names(), s[b].names()));
        } else if b == i {
            assert(names_before(s[a].names(), h.names()));
        } else if a == i {
            if gap == 0 {
                assert(names_before(s[i].names(), s[b].names()));
            } else if b - 1 > i {
                assert(names_before(s[i].names(), s[b - 1].names()));
                lemma_names(h.names(), s[i].names(), s[b - 1].names());
            }
        } else if a < i {
            assert(names_before(s[a].names(), s[b - gap].names()));
        } else {
            assert(names_before(s[a - gap].names(), s[b - gap].names()));
        }
    }
    let m = known(s).insert(h.names(), h);
    assert(t[i] == h);
    lemma_known(t, i);
    assert forall|names: Names| #[trigger]
        known(t).dom().contains(names) implies m.dom().contains(names) && known(t)[names]
        == m[names] by {
        if names != h.names() {
            let j = choose|j: int| filed_at(t, names, j);
            let k: int = if j < i || t.len() == s.len() {
                j
            } else {
                j - 1
            };
            assert(t[j] == s[k]);
            lemma_known(t, j);
            lemma_known(s, k);
        }
    }
    assert forall|names: Names| #[trigger] m.dom().contains(names) implies known(t).dom().contains(
        names,
    ) by {
        if names != h.names() {
            let k = choose|k: int| filed_at(s, names, k);
            let j: int = if k < i || t.len() == s.len() {
                k
            } else {
                k + 1
            };
            assert(t[j] == s[k]);
            lemma_known(t, j);
        }
    }
    assert(known(t) =~= m);
}

/// What is known once a snapshot has been taken in, unless one at least as new
/// is held.
pub open spec fn merged(m: Map<Names, CharacterHoldings>, h: CharacterHoldings) -> Map<
    Names,
    CharacterHoldings,
> {
    if as_new_held(m, h) || h.character@.len() == 0 {
        m
    } else {
        m.insert(h.names(), h)
    }
}

/// A snapshot of the same character that is at least as new is held.
pub open spec fn as_new_held(m: Map<Names, CharacterHoldings>, h: CharacterHoldings) -> bool {
    m.contains_key(h.names()) && m[h.names()].taken_at >= h.taken_at
}

/// The newest word stands, whatever the order in which two come: taking in two
/// snapshots gives the same either way round, unless they are of one character
/// and of one moment.
pub proof fn law_the_newest_word_stands(
    m: Map<Names, CharacterHoldings>,
    a: CharacterHoldings,
    b: CharacterHoldings,
)
    requires
        a.names() != b.names() || a.taken_at != b.taken_at,
    ensures
        merged(merged(m, a), b) == merged(merged(m, b), a),
{
    assert(merged(merged(m, a), b) =~= merged(merged(m, b), a));
}

/// Taking in a snapshot leaves what is known of every other character as it is,
/// and never goes back in time.
pub proof fn law_taking_in_loses_nothing(
    m: Map<Names, CharacterHoldings>,
    h: CharacterHoldings,
    names: Names,
)
    requires
        m.contains_key(names),
    ensures
        merged(m, h).contains_key(names),
        names != h.names() ==> merged(m, h)[names] == m[names],
        merged(m, h)[names].taken_at >= m[names].taken_at,
{
}

/// What is known of a character once it is marked offline.
pub open spec fn gone_offline(h: CharacterHoldings, now: u64) -> CharacterHoldings {
    CharacterHoldings {
        online: false,
        taken_at: if h.taken_at > now {
            h.taken_at
        } else {
            now
        },
        ..h
    }
}

/// The snapshots on one world, of the first `n`.
pub open spec fn of_world(s: Seq<CharacterHoldings>, server: Seq<char>, n: nat) -> Seq<
    CharacterHoldings,
>
    decreases n,
{
    if n == 0 {
        seq![]
    } else {
        let rest = of_world(s, server, (n - 1) as nat);
        if s[n - 1].stands_on(server) {
            rest.push(s[n - 1])
        } else {
            rest
        }
    }
}

/// What some references stand for.
pub open spec fn meant(v: Seq<&CharacterHoldings>) -> Seq<CharacterHoldings> {
    v.map_values(|h: &CharacterHoldings| *h)
}

/// How many items the first `n` snapshots hold.
pub open spec fn item_count(s: Seq<CharacterHoldings>, n: nat) -> nat
    decreases n,
{
    if n == 0 {
        0
    } else {
        item_count(s, (n - 1) as nat) + s[n - 1].items@.len()
    }
}

/// How many items of the first `n` snapshots are not appraised.
pub open spec fn unknown_count(s: Seq<CharacterHoldings>, n: nat) -> nat
    decreases n,
{
    if n == 0 {
        0
    } else {
        unknown_count(s, (n - 1) as nat) + unknown_among(s[n - 1].items@, s[n - 1].items@.len())
    }
}

proof fn lemma_counts_grow(s: Seq<CharacterHoldings>, i: nat, n: nat)
    requires
        i <= n,
    ensures
        item_count(s, i) <= item_count(s, n),
    decreases n,
{
    if i < n {
        lemma_counts_grow(s, i, (n - 1) as nat);
    }
}

/// What is known settles the order and the whole of the file: two files in which
/// the same is known are the same.
pub proof fn law_what_is_known_settles_the_file(
    s: Seq<CharacterHoldings>,
    t: Seq<CharacterHoldings>,
)
    requires
        in_file(s),
        in_file(t),
        known(s) == known(t),
    ensures
        s == t,
    decreases s.len(),
{
    if s.len() == 0 {
        if t.len() > 0 {
            lemma_known(t, 0);
            let i = choose|i: int| filed_at(s, t[0].names(), i);
            assert(filed_at(s, t[0].names(), i));
        }
        assert(s =~= t);
    } else {
        let a = s.last();
        lemma_known(s, s.len() - 1);
        let j = choose|j: int| filed_at(t, a.names(), j);
        assert(filed_at(t, a.names(), j));
        let b = t.last();
        lemma_known(t, t.len() - 1);
        lemma_known(t, j);
        let i = choose|i: int| filed_at(s, b.names(), i);
        assert(filed_at(s, b.names(), i));
        lemma_names(a.names(), b.names(), a.names());
        if j != t.len() - 1 {
            assert(names_before(t[j].names(), t[t.len() - 1].names()));
            if i != s.len() - 1 {
                assert(names_before(s[i].names(), s[s.len() - 1].names()));
            }
        }
        assert(a.names() == b.names());
        assert(a == b);
        let (s2, t2) = (s.drop_last(), t.drop_last());
        lemma_all_but_the_last(s);
        lemma_all_but_the_last(t);
        assert(known(s2) == known(t2));
        law_what_is_known_settles_the_file(s2, t2);
        assert(s =~= s2.push(a));
        assert(t =~= t2.push(b));
    }
}

proof fn lemma_all_but_the_last(s: Seq<CharacterHoldings>)
    requires
        in_file(s),
        s.len() > 0,
    ensures
        in_file(s.drop_last()),
        known(s.drop_last()) =~= known(s).remove(s.last().names()),
{
    let less = s.drop_last();
    let m = known(s).remove(s.last().names());
    assert(in_file(less));
    assert forall|names: Names| #[trigger]
        known(less).dom().contains(names) implies m.dom().contains(names) && known(less)[names]
        == m[names] by {
        let i = choose|i: int| filed_at(less, names, i);
        assert(filed_at(less, names, i));
        lemma_known(less, i);
        lemma_known(s, i);
        assert(names_before(s[i].names(), s[s.len() - 1].names()));
        lemma_names(names, names, names);
    }
    assert forall|names: Names| #[trigger] m.dom().contains(names) implies known(
        less,
    ).dom().contains(names) by {
        let i = choose|i: int| filed_at(s, names, i);
        assert(filed_at(s, names, i));
        assert(i != s.len() - 1);
        assert(less[i] == s[i]);
        lemma_known(less, i);
    }
    assert(known(less) =~= m);
}

/// What is known once the first `n` snapshots have been taken in, one after
/// another.
pub open spec fn merged_all(
    m: Map<Names, CharacterHoldings>,
    read: Seq<CharacterHoldings>,
    n: nat,
) -> Map<Names, CharacterHoldings>
    decreases n,
{
    if n == 0 {
        m
    } else {
        merged(merged_all(m, read, (n - 1) as nat), read[n - 1])
    }
}

/// How many of the first `n` snapshots name no world.
pub open spec fn orphans(read: Seq<CharacterHoldings>, n: nat) -> nat
    decreases n,
{
    if n == 0 {
        0
    } else {
        orphans(read, (n - 1) as nat) + if read[n - 1].server@.len() == 0 {
            1nat
        } else {
            0nat
        }
    }
}

/// A name is written so by `safe`.
pub open spec fn wrote<F: Fn(&str) -> String>(safe: F, name: Seq<char>, written: Seq<char>) -> bool {
    exists|x: &str, w: String| x@ == name && w@ == written && #[trigger] safe.ensures((x,), w)
}

/// One search result: who holds the item, and the item.
#[derive(Clone, Debug, PartialEq)]
pub struct Hit {
    pub server: String,
    pub account: String,
    pub character: String,
    pub online: bool,
    pub taken_at: u64,
    /// "worn", "pack", or a side pack's name.
    pub place: String,
    pub stats: ItemStats,
    /// What the holder wrote down that this was picked up for. `None` for
    /// anything no rule claimed.
    pub took: Option<LootAction>,
}

/// An item and who holds it.
pub type Held = (CharacterHoldings, HoldingRecord);

/// The first `n` items of a snapshot.
pub open spec fn items_of(h: CharacterHoldings, n: nat) -> Seq<Held>
    decreases n,
{
    if n == 0 {
        seq![]
    } else {
        items_of(h, (n - 1) as nat).push((h, h.items@[n - 1]))
    }
}

/// The items of some snapshots, one snapshot after another.
pub open spec fn all_items(s: Seq<CharacterHoldings>, n: nat) -> Seq<Held>
    decreases n,
{
    if n == 0 {
        seq![]
    } else {
        all_items(s, (n - 1) as nat) + items_of(s[n - 1], s[n - 1].items@.len())
    }
}

/// What is told of an item that was found.
pub open spec fn is_hit(held: Held, now: u64, hit: Hit) -> bool {
    let (h, item) = held;
    &&& hit.server == h.server
    &&& hit.account == h.account
    &&& hit.character == h.character
    &&& hit.online == h.spec_online_at(now)
    &&& hit.taken_at == h.taken_at
    &&& hit.place@ == h.spec_place_of(item)
    &&& hit.took == item.took
}

/// What a search finds among some items: those that match, as they read, in the
/// order in which they are held.
pub open spec fn found<F: Fn(&ItemStats) -> bool, G: Fn(u32) -> &'static str>(
    held: Seq<Held>,
    matches: F,
    kind_name: G,
    materials: Seq<&str>,
    now: u64,
    hits: Seq<Hit>,
) -> bool
    decreases held.len(),
{
    if held.len() == 0 {
        hits.len() == 0
    } else {
        let rest = held.drop_last();
        let (_, item) = held.last();
        ||| hits.len() > 0 && is_hit(held.last(), now, hits.last()) && judged(
            item,
            matches,
            kind_name,
            materials,
            hits.last().stats,
            true,
        ) && found(rest, matches, kind_name, materials, now, hits.drop_last())
        ||| (exists|stats: ItemStats|
            #[trigger] judged(item, matches, kind_name, materials, stats, false)) && found(
            rest,
            matches,
            kind_name,
            materials,
            now,
            hits,
        )
    }
}

/// An item reads as `stats`, and of those the search says `yes` or no.
pub open spec fn judged<F: Fn(&ItemStats) -> bool, G: Fn(u32) -> &'static str>(
    item: HoldingRecord,
    matches: F,
    kind_name: G,
    materials: Seq<&str>,
    stats: ItemStats,
    yes: bool,
) -> bool {
    &&& matches.ensures((&stats,), yes)
    &&& exists|word: &'static str|
        #[trigger] kind_name.ensures((item.item_type,), word) && reads_as(
            item,
            word@,
            materials,
            stats,
        )
}

proof fn lemma_of_world(s: Seq<CharacterHoldings>, server: Seq<char>, n: nat, i: int)
    requires
        n <= s.len(),
        0 <= i < of_world(s, server, n).len(),
    ensures
        of_world(s, server, n)[i].stands_on(server),
    decreases n,
{
    if i < of_world(s, server, (n - 1) as nat).len() {
        lemma_of_world(s, server, (n - 1) as nat, i);
    }
}

proof fn lemma_all_items(s: Seq<CharacterHoldings>, n: nat, k: int)
    requires
        n <= s.len(),
        0 <= k < all_items(s, n).len(),
    ensures
        exists|i: int| 0 <= i < n && all_items(s, n)[k].0 == #[trigger] s[i],
    decreases n,
{
    let before = all_items(s, (n - 1) as nat);
    if k < before.len() {
        lemma_all_items(s, (n - 1) as nat, k);
        let i = choose|i: int| 0 <= i < n - 1 && before[k].0 == #[trigger] s[i];
        assert(all_items(s, n)[k].0 == s[i]);
    } else {
        lemma_items_of(s[n - 1], s[n - 1].items@.len(), k - before.len());
        assert(all_items(s, n)[k].0 == s[n - 1]);
    }
}

proof fn lemma_items_of(h: CharacterHoldings, n: nat, k: int)
    requires
        n <= h.items@.len(),
        0 <= k < items_of(h, n).len(),
    ensures
        items_of(h, n)[k].0 == h,
    decreases n,
{
    if k < items_of(h, (n - 1) as nat).len() {
        lemma_items_of(h, (n - 1) as nat, k);
    }
}

proof fn lemma_found_among<F: Fn(&ItemStats) -> bool, G: Fn(u32) -> &'static str>(
    held: Seq<Held>,
    matches: F,
    kind_name: G,
    materials: Seq<&str>,
    now: u64,
    hits: Seq<Hit>,
    i: int,
)
    requires
        found(held, matches, kind_name, materials, now, hits),
        0 <= i < hits.len(),
    ensures
        exists|k: int| 0 <= k < held.len() && #[trigger] is_hit(held[k], now, hits[i]),
        matches.ensures((&hits[i].stats,), true),
    decreases held.len(),
{
    let rest = held.drop_last();
    let (_, item) = held.last();
    if hits.len() > 0 && is_hit(held.last(), now, hits.last()) && judged(
        item,
        matches,
        kind_name,
        materials,
        hits.last().stats,
        true,
    ) && found(rest, matches, kind_name, materials, now, hits.drop_last()) {
        if i == hits.len() - 1 {
            assert(is_hit(held[held.len() - 1], now, hits[i]));
        } else {
            lemma_found_among(rest, matches, kind_name, materials, now, hits.drop_last(), i);
            let k = choose|k: int|
                0 <= k < rest.len() && #[trigger] is_hit(rest[k], now, hits.drop_last()[i]);
            assert(is_hit(held[k], now, hits[i]));
        }
    } else {
        lemma_found_among(rest, matches, kind_name, materials, now, hits, i);
        let k = choose|k: int| 0 <= k < rest.len() && #[trigger] is_hit(rest[k], now, hits[i]);
        assert(is_hit(held[k], now, hits[i]));
    }
}

/// One world at a time: all that a search of a world finds is held by a
/// character on that world, and matches.
pub proof fn law_one_world_at_a_time<F: Fn(&ItemStats) -> bool, G: Fn(u32) -> &'static str>(
    s: Seq<CharacterHoldings>,
    server: Seq<char>,
    matches: F,
    kind_name: G,
    materials: Seq<&str>,
    now: u64,
    hits: Seq<Hit>,
)
    requires
        found(
            all_items(of_world(s, server, s.len()), of_world(s, server, s.len()).len()),
            matches,
            kind_name,
            materials,
            now,
            hits,
        ),
    ensures
        forall|i: int|
            0 <= i < hits.len() ==> alike((#[trigger] hits[i]).server@, server)
                && matches.ensures((&hits[i].stats,), true),
{
    let here = of_world(s, server, s.len());
    let held = all_items(here, here.len());
    assert forall|i: int| 0 <= i < hits.len() implies alike((#[trigger] hits[i]).server@, server)
        && matches.ensures((&hits[i].stats,), true) by {
        lemma_found_among(held, matches, kind_name, materials, now, hits, i);
        let k = choose|k: int| 0 <= k < held.len() && #[trigger] is_hit(held[k], now, hits[i]);
        lemma_all_items(here, here.len(), k);
        let j = choose|j: int| 0 <= j < here.len() && held[k].0 == #[trigger] here[j];
        lemma_of_world(s, server, s.len(), j);
    }
}

impl HoldingsStore {
    /// The snapshots in the order of their names.
    pub closed spec fn view(&self) -> Seq<CharacterHoldings> {
        self.entries@.map_values(|e: Entry| e.held)
    }

    pub closed spec fn spec_dir(self) -> Option<String> {
        self.dir
    }

    pub closed spec fn keyed(self) -> bool {
        forall|i: int|
            0 <= i < self.entries@.len() ==> names_of((#[trigger] self.entries@[i]).key)
                == self.entries@[i].held.names()
    }

    /// Every snapshot stands in its place, none twice.
    pub open spec fn wf(self) -> bool {
        self.keyed() && in_file(self.view())
    }

    /// What is known of each character.
    pub open spec fn known(self) -> Map<Names, CharacterHoldings> {
        known(self.view())
    }

    /// An empty store that writes nothing.
    pub fn new() -> (r: HoldingsStore)
        ensures
            r.wf(),
            r.view() == Seq::<CharacterHoldings>::empty(),
            r.known() == Map::<Names, CharacterHoldings>::empty(),
            r.spec_dir() is None,
    {
        let r = HoldingsStore { entries: Vec::new(), dir: None };
        proof {
            assert(r.view() =~= Seq::<CharacterHoldings>::empty());
            assert(r.known() =~= Map::<Names, CharacterHoldings>::empty()) by {
                assert forall|names: Names, i: int| !filed_at(r.view(), names, i) by {}
            }
        }
        r
    }

    /// Where snapshots are written, once set.
    pub fn dir(&self) -> (r: Option<&str>)
        ensures
            match (r, self.spec_dir()) {
                (Some(a), Some(b)) => a@ == b@,
                (None, None) => true,
                _ => false,
            },
    {
        match &self.dir {
            Some(d) => Some(d.as_str()),
            None => None,
        }
    }

    pub fn set_dir(&mut self, dir: Option<String>)
        requires
            old(self).wf(),
        ensures
            final(self).wf(),
            final(self).view() == old(self).view(),
            final(self).spec_dir() == dir,
    {
        self.dir = dir;
    }

    /// The first place whose names do not stand before these.
    fn place(&self, key: &Key) -> (r: usize)
        requires
            self.wf(),
        ensures
            r <= self.entries@.len(),
            forall|k: int|
                0 <= k < r ==> names_before((#[trigger] self.view()[k]).names(), names_of(*key)),
            r < self.entries@.len() ==> !names_before(self.view()[r as int].names(), names_of(*key)),
    {
        let mut low: usize = 0;
        let mut high: usize = self.entries.len();
        while low < high
            invariant
                self.wf(),
                low <= high <= self.entries@.len(),
                forall|k: int|
                    0 <= k < low ==> names_before((#[trigger] self.view()[k]).names(), names_of(*key)),
                high < self.entries@.len() ==> !names_before(
                    self.view()[high as int].names(),
                    names_of(*key),
                ),
            decreases high - low,
        {
            let mid: usize = low + (high - low) / 2;
            assert(self.view()[mid as int] == self.entries@[mid as int].held);
            if crate::holdings::key_before(&self.entries[mid].key, key) {
                proof {
                    assert forall|k: int| 0 <= k <= mid implies names_before(
                        (#[trigger] self.view()[k]).names(),
                        names_of(*key),
                    ) by {
                        if k < mid {
                            assert(names_before(
                                self.view()[k].names(),
                                self.view()[mid as int].names(),
                            ));
                            lemma_names(
                                self.view()[k].names(),
                                self.view()[mid as int].names(),
                                names_of(*key),
                            );
                        }
                    }
                }
                low = mid + 1;
            } else {
                high = mid;
            }
        }
        low
    }

    /// Where a character is filed, or where it would be.
    fn find(&self, key: &Key) -> (r: (usize, bool))
        requires
            self.wf(),
        ensures
            r.0 <= self.entries@.len(),
            forall|k: int|
                0 <= k < r.0 ==> names_before((#[trigger] self.view()[k]).names(), names_of(*key)),
            r.1 ==> r.0 < self.entries@.len() && self.view()[r.0 as int].names() == names_of(*key)
                && self.known().contains_key(names_of(*key)) && self.known()[names_of(*key)]
                == self.view()[r.0 as int],
            !r.1 ==> !self.known().contains_key(names_of(*key)) && (r.0 < self.entries@.len()
                ==> names_before(names_of(*key), self.view()[r.0 as int].names())),
    {
        let at: usize = self.place(key);
        let ghost s = self.view();
        let ghost names = names_of(*key);
        if at < self.entries.len() {
            assert(s[at as int] == self.entries@[at as int].held);
            if crate::holdings::same_key(&self.entries[at].key, key) {
                proof {
                    lemma_known(s, at as int);
                }
                return (at, true);
            }
            proof {
                lemma_names(names, s[at as int].names(), names);
            }
        }
        proof {
            if self.known().contains_key(names) {
                let j = choose|j: int| filed_at(s, names, j);
                lemma_names(names, names, names);
                if j < at {
                    assert(names_before(s[j].names(), names));
                } else if j > at {
                    assert(names_before(s[at as int].names(), s[j].names()));
                    lemma_names(names, s[at as int].names(), names);
                }
            }
        }
        (at, false)
    }

    fn file(&mut self, h: CharacterHoldings)
        requires
            old(self).wf(),
        ensures
            final(self).wf(),
            final(self).known() == old(self).known().insert(h.names(), h),
            final(self).spec_dir() == old(self).spec_dir(),
    {
        let key = h.key();
        let (at, found) = self.find(&key);
        let ghost s = self.view();
        if found {
            self.entries.set(at, Entry { key, held: h });
            assert(self.view() =~= s.update(at as int, h));
        } else {
            self.entries.insert(at, Entry { key, held: h });
            assert(self.view() =~= s.insert(at as int, h));
        }
        proof {
            lemma_put(s, at as int, h, self.view());
        }
    }

    /// Where a character's snapshot lives below the directory: the directory of
    /// its world, that of its account, and the name of the file. `safe` writes a
    /// name as it can stand in a path.
    pub fn path_for<F: Fn(&str) -> String>(safe: F, server: &str, account: &str, character: &str) -> (r:
        (String, String, String))
        requires
            forall|x: &str| #[trigger] safe.requires((x,)),
        ensures
            wrote(safe, small_text(server@), r.0@),
            wrote(safe, small_text(account@), r.1@),
            exists|name: Seq<char>| #[trigger]
                wrote(safe, character@, name) && r.2@ == name + ".json"@,
    {
        let world = server.to_ascii_lowercase();
        let held_by = account.to_ascii_lowercase();
        let a = safe(world.as_str());
        let b = safe(held_by.as_str());
        let c = safe(character);
        assert(wrote(safe, character@, c@));
        (a, b, cat2(c.as_str(), ".json"))
    }

    /// Take a snapshot in unless one at least as new is already held. Returns
    /// whether it was taken.
    pub fn merge(&mut self, h: CharacterHoldings) -> (r: bool)
        requires
            old(self).wf(),
        ensures
            final(self).wf(),
            final(self).spec_dir() == old(self).spec_dir(),
            r == (h.character@.len() > 0 && !as_new_held(old(self).known(), h)),
            final(self).known() == merged(old(self).known(), h),
    {
        if h.character.as_str().is_empty() {
            return false;
        }
        let key = h.key();
        let (at, found) = self.find(&key);
        if found {
            assert(self.view()[at as int] == self.entries@[at as int].held);
            if self.entries[at].held.taken_at >= h.taken_at {
                return false;
            }
        }
        self.file(h);
        true
    }

    /// Put the snapshot in whatever its age (a session's own word).
    pub fn put(&mut self, h: CharacterHoldings)
        requires
            old(self).wf(),
        ensures
            final(self).wf(),
            final(self).spec_dir() == old(self).spec_dir(),
            final(self).known() == if h.character@.len() > 0 {
                old(self).known().insert(h.names(), h)
            } else {
                old(self).known()
            },
    {
        if !h.character.as_str().is_empty() {
            self.file(h);
        }
    }

    /// The snapshot of a character, if one is known.
    pub fn get(&self, server: &str, account: &str, character: &str) -> (r: Option<&CharacterHoldings>)
        requires
            self.wf(),
        ensures
            match r {
                Some(h) => self.known().contains_key(filed_as(server@, account@, character@)) && *h
                    == self.known()[filed_as(server@, account@, character@)],
                None => !self.known().contains_key(filed_as(server@, account@, character@)),
            },
    {
        let key = crate::holdings::make_key(server, account, character);
        let (at, found) = self.find(&key);
        if found {
            assert(self.view()[at as int] == self.entries@[at as int].held);
            Some(&self.entries[at].held)
        } else {
            None
        }
    }

    /// Mark a character offline as of `now`; the snapshot as it is then.
    pub fn set_offline(&mut self, server: &str, account: &str, character: &str, now: u64) -> (r:
        Option<CharacterHoldings>)
        requires
            old(self).wf(),
        ensures
            final(self).wf(),
            final(self).spec_dir() == old(self).spec_dir(),
            ({
                let names = filed_as(server@, account@, character@);
                let before = old(self).known();
                if before.contains_key(names) {
                    let gone = gone_offline(before[names], now);
                    &&& final(self).known() == before.insert(names, gone)
                    &&& r is Some
                    &&& same_holdings(gone, r->0)
                } else {
                    r is None && final(self).known() == before
                }
            }),
    {
        let key = crate::holdings::make_key(server, account, character);
        let (at, found) = self.find(&key);
        if !found {
            return None;
        }
        let ghost s = self.view();
        assert(s[at as int] == self.entries@[at as int].held);
        let mut e = self.entries.remove(at);
        e.held.online = false;
        if e.held.taken_at < now {
            e.held.taken_at = now;
        }
        let r = e.held.copy();
        let ghost gone = e.held;
        self.entries.insert(at, e);
        proof {
            assert(self.view() =~= s.update(at as int, gone));
            lemma_put(s, at as int, gone, self.view());
        }
        Some(r)
    }

    /// Every snapshot, in the order of their names.
    pub fn iter(&self) -> (r: Vec<&CharacterHoldings>)
        ensures
            meant(r@) == self.view(),
    {
        let mut r: Vec<&CharacterHoldings> = Vec::new();
        let mut i: usize = 0;
        while i < self.entries.len()
            invariant
                i <= self.entries.len(),
                meant(r@) == self.view().take(i as int),
            decreases self.entries.len() - i,
        {
            let ghost before = meant(r@);
            r.push(&self.entries[i].held);
            assert(meant(r@) =~= before.push(self.entries@[i as int].held));
            i = i + 1;
            assert(meant(r@) =~= self.view().take(i as int));
        }
        assert(self.view().take(self.view().len() as int) =~= self.view());
        r
    }

    /// How many characters are known.
    pub fn len(&self) -> (r: usize)
        ensures
            r == self.view().len(),
    {
        self.entries.len()
    }

    pub fn is_empty(&self) -> (r: bool)
        ensures
            r == (self.view().len() == 0),
    {
        self.entries.len() == 0
    }

    /// Every character known on one world, and nothing from another.
    pub fn on_server(&self, server: &str) -> (r: Vec<&CharacterHoldings>)
        ensures
            meant(r@) == of_world(self.view(), server@, self.view().len()),
    {
        let mut r: Vec<&CharacterHoldings> = Vec::new();
        let mut i: usize = 0;
        assert(meant(r@) =~= seq![]);
        while i < self.entries.len()
            invariant
                i <= self.entries.len(),
                meant(r@) == of_world(self.view(), server@, i as nat),
            decreases self.entries.len() - i,
        {
            let h = &self.entries[i].held;
            assert(self.view()[i as int] == *h);
            let ghost before = meant(r@);
            if h.on(server) {
                r.push(h);
                assert(meant(r@) =~= before.push(*h));
            }
            i = i + 1;
        }
        r
    }

    /// Characters, items and unappraised items on one world.
    pub fn counts(&self, server: &str) -> (r: (usize, usize, usize))
        requires
            item_count(
                of_world(self.view(), server@, self.view().len()),
                of_world(self.view(), server@, self.view().len()).len(),
            ) <= usize::MAX,
        ensures
            ({
                let s = of_world(self.view(), server@, self.view().len());
                &&& r.0 == s.len()
                &&& r.1 == item_count(s, s.len())
                &&& r.2 == unknown_count(s, s.len())
            }),
    {
        let here = self.on_server(server);
        let ghost s = meant(here@);
        let mut items: usize = 0;
        let mut unknown: usize = 0;
        let mut i: usize = 0;
        while i < here.len()
            invariant
                i <= here.len(),
                s == meant(here@),
                item_count(s, s.len()) <= usize::MAX,
                items == item_count(s, i as nat),
                unknown == unknown_count(s, i as nat),
                unknown <= items,
            decreases here.len() - i,
        {
            let h = here[i];
            assert(s[i as int] == *h);
            proof {
                lemma_counts_grow(s, (i + 1) as nat, s.len());
            }
            items = items + h.items.len();
            unknown = unknown + h.unappraised();
            i = i + 1;
        }
        (here.len(), items, unknown)
    }

    /// Take in the snapshots that were read, one after another. How many there
    /// were, and how many of them name no world: each of those is replaced on its
    /// character's next login.
    pub fn merge_all(&mut self, read: Vec<CharacterHoldings>) -> (r: (usize, usize))
        requires
            old(self).wf(),
        ensures
            final(self).wf(),
            final(self).spec_dir() == old(self).spec_dir(),
            final(self).known() == merged_all(old(self).known(), read@, read@.len()),
            r.0 == read@.len(),
            r.1 == orphans(read@, read@.len()),
    {
        let n: usize = read.len();
        let ghost all = read@;
        let mut rest = read;
        let mut back: Vec<CharacterHoldings> = Vec::new();
        let mut i: usize = 0;
        while i < n
            invariant
                i <= n,
                n == all.len(),
                rest@ == all.take(n - i),
                back@ == all.skip(n - i).reverse(),
            decreases n - i,
        {
            let h = rest.pop().unwrap();
            assert(all.take(n - i).drop_last() =~= all.take(n - i - 1));
            back.push(h);
            assert(back@ =~= all.skip(n - i - 1).reverse());
            i = i + 1;
        }
        assert(back@ =~= all.skip(0).reverse());
        let mut lost: usize = 0;
        i = 0;
        while i < n
            invariant
                i <= n,
                n == all.len(),
                back@ == all.skip(i as int).reverse(),
                lost == orphans(all, i as nat),
                lost <= i,
                self.wf(),
                self.spec_dir() == old(self).spec_dir(),
                self.known() == merged_all(old(self).known(), all, i as nat),
            decreases n - i,
        {
            let h = back.pop().unwrap();
            assert(h == all[i as int]);
            assert(back@ =~= all.skip(i + 1).reverse());
            if h.server.as_str().is_empty() {
                lost = lost + 1;
            }
            self.merge(h);
            i = i + 1;
        }
        (n, lost)
    }

    /// What matches among the characters on one world. `kind_name` gives the word
    /// for the kind of an item type, `materials` are the names of the material
    /// table.
    pub fn search<F: Fn(&ItemStats) -> bool, G: Fn(u32) -> &'static str>(
        &self,
        server: &str,
        matches: F,
        kind_name: G,
        materials: &[&'static str],
        now: u64,
    ) -> (r: Vec<Hit>)
        requires
            forall|s: &ItemStats| #[trigger] matches.requires((s,)),
            forall|t: u32| #[trigger] kind_name.requires((t,)),
        ensures
            found(
                all_items(
                    of_world(self.view(), server@, self.view().len()),
                    of_world(self.view(), server@, self.view().len()).len(),
                ),
                matches,
                kind_name,
                materials@,
                now,
                r@,
            ),
    {
        let here = self.on_server(server);
        let ghost s = meant(here@);
        let mut r: Vec<Hit> = Vec::new();
        let mut i: usize = 0;
        while i < here.len()
            invariant
                i <= here.len(),
                s == meant(here@),
                forall|s: &ItemStats| #[trigger] matches.requires((s,)),
                forall|t: u32| #[trigger] kind_name.requires((t,)),
                found(all_items(s, i as nat), matches, kind_name, materials@, now, r@),
            decreases here.len() - i,
        {
            let h = here[i];
            assert(s[i as int] == *h);
            let online = h.online_at(now);
            let mut j: usize = 0;
            assert(all_items(s, i as nat) + items_of(*h, 0) =~= all_items(s, i as nat));
            while j < h.items.len()
                invariant
                    j <= h.items@.len(),
                    online == h.spec_online_at(now),
                    forall|s: &ItemStats| #[trigger] matches.requires((s,)),
                    forall|t: u32| #[trigger] kind_name.requires((t,)),
                    found(
                        all_items(s, i as nat) + items_of(*h, j as nat),
                        matches,
                        kind_name,
                        materials@,
                        now,
                        r@,
                    ),
                decreases h.items@.len() - j,
            {
                let ghost before = all_items(s, i as nat) + items_of(*h, j as nat);
                let ghost after = all_items(s, i as nat) + items_of(*h, (j + 1) as nat);
                let item = &h.items[j];
                assert(after =~= before.push((*h, *item)));
                assert(after.drop_last() =~= before);
                let word = kind_name(item.item_type);
                let stats = item.to_stats(word, materials);
                if matches(&stats) {
                    assert(judged(*item, matches, kind_name, materials@, stats, true));
                    let ghost hits = r@;
                    r.push(
                        Hit {
                            server: h.server.clone(),
                            account: h.account.clone(),
                            character: h.character.clone(),
                            online,
                            taken_at: h.taken_at,
                            place: h.place_of(item),
                            stats,
                            took: item.took,
                        },
                    );
                    assert(r@.drop_last() =~= hits);
                } else {
                    assert(judged(*item, matches, kind_name, materials@, stats, false));
                }
                j = j + 1;
            }
            i = i + 1;
        }
        r
    }
}

} // verus!
