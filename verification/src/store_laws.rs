//! What holds of everything that is known of what characters hold.

use crate::holdings::{unknown_among, CharacterHoldings, Names};
use crate::records::{reads_as, HoldingRecord, ItemStats};
use crate::store::{
    all_items, found, gone_offline, is_hit, item_count, items_of, judged, merged, merged_all,
    of_world, orphans, unknown_count, Held, Hit,
};
use crate::sums::total;
use crate::text::alike;
use vstd::prelude::*;

verus! {

/// Word of a character is taken in just where it has a name and nothing as new is
/// known of it; then it is what is known, and otherwise what was known stays.
pub proof fn law_newer_word_is_taken_in(m: Map<Names, CharacterHoldings>, h: CharacterHoldings)
    ensures
        ({
            let newer = h.character@.len() > 0 && !(m.contains_key(h.names())
                && m[h.names()].taken_at >= h.taken_at);
            &&& newer ==> merged(m, h) == m.insert(h.names(), h)
            &&& !newer ==> merged(m, h) == m
        }),
{
}

/// What is known of a character once much was taken in: nothing read of it is
/// newer, and it was known before or was read.
pub open spec fn is_newest(
    m: Map<Names, CharacterHoldings>,
    read: Seq<CharacterHoldings>,
    names: Names,
    h: CharacterHoldings,
) -> bool {
    &&& forall|i: int|
        0 <= i < read.len() && (#[trigger] read[i]).names() == names && read[i].character@.len() > 0
            ==> read[i].taken_at <= h.taken_at
    &&& m.contains_key(names) ==> m[names].taken_at <= h.taken_at
    &&& (m.contains_key(names) && m[names] == h) || exists|i: int|
        0 <= i < read.len() && (#[trigger] read[i]) == h && h.names() == names
            && h.character@.len() > 0
}

proof fn lemma_merged_all(
    m: Map<Names, CharacterHoldings>,
    read: Seq<CharacterHoldings>,
    n: nat,
    names: Names,
)
    requires
        n <= read.len(),
    ensures
        ({
            let after = merged_all(m, read, n);
            let some = read.take(n as int);
            &&& after.contains_key(names) <==> m.contains_key(names) || exists|i: int|
                0 <= i < some.len() && (#[trigger] some[i]).names() == names
                    && some[i].character@.len() > 0
            &&& after.contains_key(names) ==> is_newest(m, some, names, after[names])
        }),
    decreases n,
{
    let after = merged_all(m, read, n);
    let some = read.take(n as int);
    if n > 0 {
        lemma_merged_all(m, read, (n - 1) as nat, names);
        let before = merged_all(m, read, (n - 1) as nat);
        let less = read.take(n - 1);
        let h = read[n - 1];
        assert(some[n - 1] == h);
        assert(forall|i: int| 0 <= i < n - 1 ==> #[trigger] less[i] == some[i]);
        if before.contains_key(names) && !m.contains_key(names) {
            let i = choose|i: int|
                0 <= i < less.len() && (#[trigger] less[i]).names() == names
                    && less[i].character@.len() > 0;
            assert(some[i].names() == names);
        }
        if after.contains_key(names) {
            let now = after[names];
            if before.contains_key(names) && now == before[names] {
                if !(m.contains_key(names) && m[names] == now) {
                    let i = choose|i: int|
                        0 <= i < less.len() && (#[trigger] less[i]) == now && now.names() == names
                            && now.character@.len() > 0;
                    assert(some[i] == now);
                }
            } else {
                assert(now == h);
                assert(some[n - 1] == now);
            }
            assert forall|i: int|
                0 <= i < some.len() && (#[trigger] some[i]).names() == names
                    && some[i].character@.len() > 0 implies some[i].taken_at <= now.taken_at by {
                if i < n - 1 {
                    assert(less[i] == some[i]);
                    assert(before.contains_key(names));
                    assert(less[i].taken_at <= before[names].taken_at);
                }
            }
        } else {
            assert forall|i: int|
                0 <= i < some.len() && (#[trigger] some[i]).names() == names implies some[i].character@.len()
                == 0 by {
                if i < n - 1 {
                    assert(less[i] == some[i]);
                }
            }
        }
    }
}

/// Of everything taken in, the newest word of each character is what is known of
/// it, and nobody is known of whom nothing was.
pub proof fn law_the_newest_of_all_is_known(
    m: Map<Names, CharacterHoldings>,
    read: Seq<CharacterHoldings>,
    names: Names,
)
    ensures
        ({
            let after = merged_all(m, read, read.len());
            &&& after.contains_key(names) <==> m.contains_key(names) || exists|i: int|
                0 <= i < read.len() && (#[trigger] read[i]).names() == names
                    && read[i].character@.len() > 0
            &&& after.contains_key(names) ==> is_newest(m, read, names, after[names])
        }),
{
    lemma_merged_all(m, read, read.len(), names);
    assert(read.take(read.len() as int) =~= read);
}

/// One that has gone offline is not online, is known of as of then or later, and
/// holds what it held.
pub proof fn law_going_offline_keeps_what_is_held(h: CharacterHoldings, now: u64)
    ensures
        ({
            let after = gone_offline(h, now);
            &&& !after.online
            &&& after.taken_at >= now && after.taken_at >= h.taken_at
            &&& after.taken_at == now || after.taken_at == h.taken_at
            &&& after == (CharacterHoldings { online: false, taken_at: after.taken_at, ..h })
        }),
{
}

proof fn lemma_of_world(s: Seq<CharacterHoldings>, server: Seq<char>, n: nat)
    requires
        n <= s.len(),
    ensures
        of_world(s, server, n) == s.take(n as int).filter(
            |h: CharacterHoldings| alike(h.server@, server),
        ),
    decreases n,
{
    reveal(Seq::filter);
    let p = |h: CharacterHoldings| alike(h.server@, server);
    let all = s.take(n as int);
    if n > 0 {
        lemma_of_world(s, server, (n - 1) as nat);
        assert(all.drop_last() =~= s.take(n - 1));
        assert(all.last() == s[n - 1]);
    }
    assert(of_world(s, server, n) =~= all.filter(p));
}

/// Who is on a server is everybody known whose server has its name, in order.
pub proof fn law_everybody_on_a_server(s: Seq<CharacterHoldings>, server: Seq<char>)
    ensures
        of_world(s, server, s.len()) == s.filter(
            |h: CharacterHoldings| alike(h.server@, server),
        ),
{
    lemma_of_world(s, server, s.len());
    assert(s.take(s.len() as int) =~= s);
}

proof fn lemma_counts(s: Seq<CharacterHoldings>, n: nat)
    requires
        n <= s.len(),
    ensures
        item_count(s, n) == total(
            s.take(n as int).map_values(|h: CharacterHoldings| h.items@.len() as int),
        ),
        unknown_count(s, n) == total(
            s.take(n as int).map_values(
                |h: CharacterHoldings| unknown_among(h.items@, h.items@.len()) as int,
            ),
        ),
        orphans(s, n) == s.take(n as int).filter(
            |h: CharacterHoldings| h.server@.len() == 0,
        ).len(),
    decreases n,
{
    reveal(Seq::filter);
    let f = |h: CharacterHoldings| h.items@.len() as int;
    let g = |h: CharacterHoldings| unknown_among(h.items@, h.items@.len()) as int;
    let all = s.take(n as int);
    if n > 0 {
        lemma_counts(s, (n - 1) as nat);
        assert(all.drop_last() =~= s.take(n - 1));
        assert(all.last() == s[n - 1]);
        assert(all.map_values(f).drop_last() =~= s.take(n - 1).map_values(f));
        assert(all.map_values(g).drop_last() =~= s.take(n - 1).map_values(g));
    }
}

/// Everything everybody holds counts, and everything of it that is unknown; and
/// those read without a server are each counted.
pub proof fn law_everything_held_counts(s: Seq<CharacterHoldings>)
    ensures
        item_count(s, s.len()) == total(
            s.map_values(|h: CharacterHoldings| h.items@.len() as int),
        ),
        unknown_count(s, s.len()) == total(
            s.map_values(|h: CharacterHoldings| unknown_among(h.items@, h.items@.len()) as int),
        ),
        orphans(s, s.len()) == s.filter(|h: CharacterHoldings| h.server@.len() == 0).len(),
{
    lemma_counts(s, s.len());
    assert(s.take(s.len() as int) =~= s);
}

proof fn lemma_items_of(h: CharacterHoldings, n: nat)
    requires
        n <= h.items@.len(),
    ensures
        items_of(h, n).len() == n,
        forall|i: int| 0 <= i < n ==> #[trigger] items_of(h, n)[i] == (h, h.items@[i]),
    decreases n,
{
    if n > 0 {
        lemma_items_of(h, (n - 1) as nat);
    }
}

proof fn lemma_all(s: Seq<CharacterHoldings>, n: nat, k: int, i: int)
    requires
        0 <= k < n <= s.len(),
        0 <= i < s[k].items@.len(),
    ensures
        all_items(s, n).contains((s[k], s[k].items@[i])),
    decreases n,
{
    let before = all_items(s, (n - 1) as nat);
    let more = items_of(s[n - 1], s[n - 1].items@.len());
    let all = all_items(s, n);
    lemma_items_of(s[n - 1], s[n - 1].items@.len());
    let x = (s[k], s[k].items@[i]);
    if k < n - 1 {
        lemma_all(s, (n - 1) as nat, k, i);
        let j = choose|j: int| 0 <= j < before.len() && before[j] == x;
        assert(all[j] == x);
    } else {
        assert(more[i] == x);
        assert(all[before.len() + i] == x);
    }
}

/// A search looks at everything anybody holds.
pub proof fn law_a_search_looks_at_everything(s: Seq<CharacterHoldings>, k: int, i: int)
    requires
        0 <= k < s.len(),
        0 <= i < s[k].items@.len(),
    ensures
        all_items(s, s.len()).contains((s[k], s[k].items@[i])),
{
    lemma_all(s, s.len(), k, i);
}

/// Something that is looked at is found, as it is, or does not answer.
pub open spec fn found_or_not<F: Fn(&ItemStats) -> bool, G: Fn(u32) -> &'static str>(
    held: Held,
    matches: F,
    kind_name: G,
    materials: Seq<&str>,
    now: u64,
    hits: Seq<Hit>,
) -> bool {
    ||| exists|i: int|
        0 <= i < hits.len() && is_hit(held, now, #[trigger] hits[i]) && judged(
            held.1,
            matches,
            kind_name,
            materials,
            hits[i].stats,
            true,
        )
    ||| exists|stats: ItemStats| #[trigger]
        judged(held.1, matches, kind_name, materials, stats, false)
}

/// A search finds everything that answers: whatever is looked at is among what is
/// found, or does not answer.
pub proof fn law_a_search_finds_all_that_answers<
    F: Fn(&ItemStats) -> bool,
    G: Fn(u32) -> &'static str,
>(
    held: Seq<Held>,
    matches: F,
    kind_name: G,
    materials: Seq<&str>,
    now: u64,
    hits: Seq<Hit>,
    k: int,
)
    requires
        found(held, matches, kind_name, materials, now, hits),
        0 <= k < held.len(),
    ensures
        found_or_not(held[k], matches, kind_name, materials, now, hits),
        hits.len() <= held.len(),
    decreases held.len(),
{
    reveal_with_fuel(found, 2);
    let rest = held.drop_last();
    let item = held.last().1;
    if hits.len() > 0 && is_hit(held.last(), now, hits.last()) && judged(
        item,
        matches,
        kind_name,
        materials,
        hits.last().stats,
        true,
    ) && found(rest, matches, kind_name, materials, now, hits.drop_last()) {
        let fewer = hits.drop_last();
        if k == held.len() - 1 {
            assert(hits[hits.len() - 1] == hits.last());
            if rest.len() > 0 {
                law_a_search_finds_all_that_answers(
                    rest,
                    matches,
                    kind_name,
                    materials,
                    now,
                    fewer,
                    0,
                );
            }
        } else {
            law_a_search_finds_all_that_answers(
                rest,
                matches,
                kind_name,
                materials,
                now,
                fewer,
                k,
            );
            if exists|i: int|
                0 <= i < fewer.len() && is_hit(rest[k], now, #[trigger] fewer[i]) && judged(
                    rest[k].1,
                    matches,
                    kind_name,
                    materials,
                    fewer[i].stats,
                    true,
                ) {
                let i = choose|i: int|
                    0 <= i < fewer.len() && is_hit(rest[k], now, #[trigger] fewer[i]) && judged(
                        rest[k].1,
                        matches,
                        kind_name,
                        materials,
                        fewer[i].stats,
                        true,
                    );
                assert(hits[i] == fewer[i]);
            }
        }
    } else {
        if k < held.len() - 1 {
            law_a_search_finds_all_that_answers(
                rest,
                matches,
                kind_name,
                materials,
                now,
                hits,
                k,
            );
        } else if rest.len() > 0 {
            law_a_search_finds_all_that_answers(
                rest,
                matches,
                kind_name,
                materials,
                now,
                hits,
                0,
            );
        }
    }
}

/// What is found says whose it is, where it is, whether that one is online and what
/// was to become of it.
pub proof fn law_what_is_found_says_whose_it_is(
    h: CharacterHoldings,
    item: HoldingRecord,
    now: u64,
    hit: Hit,
)
    requires
        is_hit((h, item), now, hit),
    ensures
        hit.server == h.server && hit.account == h.account && hit.character == h.character,
        hit.taken_at == h.taken_at,
        hit.online <==> h.online && now < h.taken_at + 90,
        hit.place@ == h.spec_place_of(item),
        hit.took == item.took,
{
}

/// A thing is judged by how it reads: as it was kept, its kind by the word for its
/// type.
pub proof fn law_a_thing_is_judged_by_how_it_reads<
    F: Fn(&ItemStats) -> bool,
    G: Fn(u32) -> &'static str,
>(
    item: HoldingRecord,
    matches: F,
    kind_name: G,
    materials: Seq<&str>,
    stats: ItemStats,
    yes: bool,
)
    requires
        judged(item, matches, kind_name, materials, stats, yes),
    ensures
        matches.ensures((&stats,), yes),
        exists|word: &'static str|
            #![trigger kind_name.ensures((item.item_type,), word)]
            kind_name.ensures((item.item_type,), word) && reads_as(
                item,
                word@,
                materials,
                stats,
            ),
        stats.guid == item.guid && stats.name == item.name && stats.value == item.value,
{
    let word = choose|word: &'static str|
        #[trigger] kind_name.ensures((item.item_type,), word) && reads_as(
            item,
            word@,
            materials,
            stats,
        );
    assert(reads_as(item, word@, materials, stats));
}

} // verus!
