//! What holds of what a character is known to hold.

use crate::holdings::{
    key_of, named_by, named_pack, names_before, same_holdings, unknown_among, CharacterHoldings,
    Names,
};
use crate::records::{
    is_kind, is_material, reads_as, same_record, HoldingRecord, ItemStats, LootAction,
};
use crate::snapshot::{kept_for, mark_of, Carried};
use crate::text::{
    alike, lemma_precedes_irreflexive, lemma_precedes_total, lemma_precedes_transitive, parts,
    precedes, small_text,
};
use vstd::prelude::*;
use vstd::string::*;

verus! {

/// A character is online while its holdings say so and are less than 90 seconds
/// old.
pub proof fn law_how_long_a_character_is_online(h: CharacterHoldings, now: u64)
    ensures
        !h.online ==> !h.spec_online_at(now),
        h.online ==> (h.spec_online_at(now) <==> now < h.taken_at + 90),
{
}

/// Once it has gone offline it stays so until it is heard of again.
pub proof fn law_a_silent_character_stays_offline(h: CharacterHoldings, now: u64, later: u64)
    requires
        now <= later,
        !h.spec_online_at(now),
    ensures
        !h.spec_online_at(later),
{
}

/// A character stands on a server of its server's name, whatever the letters.
pub proof fn law_which_server_a_character_stands_on(h: CharacterHoldings, server: Seq<char>)
    ensures
        h.stands_on(server) <==> alike(h.server@, server),
{
}

proof fn lemma_unknown(items: Seq<HoldingRecord>, n: nat)
    requires
        n <= items.len(),
    ensures
        unknown_among(items, n) == items.take(n as int).filter(
            |r: HoldingRecord| !r.appraised,
        ).len(),
    decreases n,
{
    reveal(Seq::filter);
    let all = items.take(n as int);
    if n > 0 {
        lemma_unknown(items, (n - 1) as nat);
        assert(all.drop_last() =~= items.take(n - 1));
        assert(all.last() == items[n - 1]);
    }
}

/// What is yet unknown of a character is each of its things that was not appraised.
pub proof fn law_everything_unappraised_counts(items: Seq<HoldingRecord>)
    ensures
        unknown_among(items, items.len()) == items.filter(
            |r: HoldingRecord| !r.appraised,
        ).len(),
{
    lemma_unknown(items, items.len());
    assert(items.take(items.len() as int) =~= items);
}

proof fn lemma_pack(items: Seq<HoldingRecord>, guid: u32, i: int)
    requires
        0 <= i <= items.len(),
        forall|k: int| 0 <= k < i ==> (#[trigger] items[k]).guid != guid,
    ensures
        match named_pack(items, guid, i) {
            Some(name) => exists|k: int|
                0 <= k < items.len() && (#[trigger] items[k]).guid == guid && items[k].name == name
                    && forall|j: int| 0 <= j < k ==> (#[trigger] items[j]).guid != guid,
            None => forall|k: int| 0 <= k < items.len() ==> (#[trigger] items[k]).guid != guid,
        },
    decreases items.len() - i,
{
    if i < items.len() && items[i].guid != guid {
        lemma_pack(items, guid, i + 1);
    }
}

/// Where a thing is: worn, or in the pack it lies in by that pack's name, or in the
/// main pack where it lies in none, in the character itself, or in one unknown.
pub proof fn law_where_a_thing_is(h: CharacterHoldings, item: HoldingRecord)
    ensures
        ({
            let inside = !item.wielded && item.container != 0 && item.container != h.guid;
            let known = exists|k: int|
                0 <= k < h.items@.len() && (#[trigger] h.items@[k]).guid == item.container;
            &&& item.wielded ==> h.spec_place_of(item) == "worn"@
            &&& !item.wielded && !inside ==> h.spec_place_of(item) == "pack"@
            &&& inside && !known ==> h.spec_place_of(item) == "pack"@
            &&& inside && known ==> exists|k: int|
                0 <= k < h.items@.len() && (#[trigger] h.items@[k]).guid == item.container
                    && h.items@[k].name@ == h.spec_place_of(item) && forall|j: int|
                    0 <= j < k ==> (#[trigger] h.items@[j]).guid != item.container
        }),
{
    lemma_pack(h.items@, item.container, 0);
}

/// Characters are filed in one order: by server, then by account, then by name; of
/// any two that are not the same one goes before the other.
pub proof fn law_characters_are_filed_in_one_order(a: Names, b: Names, c: Names)
    ensures
        !names_before(a, a),
        a != b ==> names_before(a, b) || names_before(b, a),
        names_before(a, b) && names_before(b, c) ==> names_before(a, c),
        names_before(a, b) ==> a.0 == b.0 || precedes(a.0, b.0),
        a.0 == b.0 && names_before(a, b) ==> a.1 == b.1 || precedes(a.1, b.1),
        a.0 == b.0 && a.1 == b.1 ==> names_before(a, b) == precedes(a.2, b.2),
        precedes(a.0, b.0) ==> names_before(a, b),
        a.0 == b.0 && precedes(a.1, b.1) ==> names_before(a, b),
{
    lemma_precedes_irreflexive(a.0);
    lemma_precedes_irreflexive(a.1);
    lemma_precedes_irreflexive(a.2);
    if a != b && !names_before(a, b) && !names_before(b, a) {
        if a.0 != b.0 {
            lemma_precedes_total(a.0, b.0);
        } else if a.1 != b.1 {
            lemma_precedes_total(a.1, b.1);
        } else {
            lemma_precedes_total(a.2, b.2);
        }
    }
    if names_before(a, b) && names_before(b, c) {
        if a.0 != b.0 && b.0 != c.0 {
            lemma_precedes_transitive(a.0, b.0, c.0);
        } else if a.0 == b.0 && b.0 == c.0 {
            if a.1 != b.1 && b.1 != c.1 {
                lemma_precedes_transitive(a.1, b.1, c.1);
            } else if a.1 == b.1 && b.1 == c.1 {
                lemma_precedes_transitive(a.2, b.2, c.2);
            }
        }
    }
}

/// A mark holds what it is of, where it lies and who wields it, none as nought, how
/// many there are, and whether it was appraised.
pub proof fn law_a_mark_tells_a_change(c: Carried)
    ensures
        mark_of(c).guid == c.guid && mark_of(c).stack == c.stack,
        mark_of(c).appraised == c.appraised,
        c.container is Some ==> mark_of(c).container == c.container->0,
        c.container is None ==> mark_of(c).container == 0,
        c.wielder is Some ==> mark_of(c).wielder == c.wielder->0,
        c.wielder is None ==> mark_of(c).wielder == 0,
{
}

/// A character's holdings are told of by the server's name, the account's in small
/// letters and its own.
pub proof fn law_what_holdings_are_told_by(
    world: Seq<char>,
    account: Seq<char>,
    character: Seq<char>,
)
    ensures
        key_of(world, account, character) == "holdings."@ + world + "/"@ + (small_text(account)
            + "/"@ + character),
{
}

/// A copy of some holdings holds what they do.
pub proof fn law_a_copy_holds_the_same(a: CharacterHoldings, b: CharacterHoldings, i: int)
    requires
        same_holdings(a, b),
    ensures
        b.names() == a.names(),
        b.guid == a.guid && b.taken_at == a.taken_at && b.online == a.online,
        b.items@.len() == a.items@.len(),
        0 <= i < a.items@.len() ==> {
            let (x, y) = (a.items@[i], b.items@[i]);
            &&& y.spells@ == x.spells@
            &&& y.wield_reqs@ == x.wield_reqs@
            &&& y == (HoldingRecord { spells: y.spells, wield_reqs: y.wield_reqs, ..x })
        },
{
    if 0 <= i < a.items@.len() {
        assert(same_record(a.items@[i], b.items@[i]));
    }
}

/// A key that names no server names an account and a character; one that names
/// neither, or that is of something else, names nobody; and what stands behind the
/// character counts for nothing.
pub proof fn law_what_a_key_names(key: Seq<char>)
    ensures
        !"holdings."@.is_prefix_of(key) ==> named_by(key) is None,
        "holdings."@.is_prefix_of(key) ==> {
            let p = parts(key.skip("holdings."@.len() as int), '/');
            &&& p.len() <= 1 ==> named_by(key) is None
            &&& p.len() == 2 ==> named_by(key) == Some((Seq::<char>::empty(), p[0], p[1]))
            &&& p.len() > 2 ==> named_by(key) == Some((p[0], p[1], p[2]))
        },
{
}

/// A thing as it was kept reads back as it was, with what was to become of it.
pub proof fn law_a_thing_kept_reads_back(
    s: ItemStats,
    took: Option<LootAction>,
    r: HoldingRecord,
    by_type: Seq<char>,
    materials: Seq<&str>,
    back: ItemStats,
)
    requires
        kept_for(s, took, r),
        reads_as(r, by_type, materials, back),
        is_kind(s.kind@),
        s.material@.len() == 0 || is_material(materials, s.material@),
    ensures
        r.took == took,
        back.kind@ == s.kind@ && back.material@ == s.material@,
        back.spells@ == s.spells@ && back.wield_reqs@ == s.wield_reqs@,
        back == (ItemStats {
            kind: back.kind,
            material: back.material,
            spells: back.spells,
            wield_reqs: back.wield_reqs,
            ..s
        }),
{
}

} // verus!
