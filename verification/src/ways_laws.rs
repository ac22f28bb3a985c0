//! What holds of the ways a character can leave by.

use crate::place::Spot;
use crate::vendors::Way;
use crate::ways::{nearest_of, seen, spec_gem_ways, spec_ways_out, ways_on, Bearings, Gem};
use vstd::prelude::*;

verus! {

/// A place can be come to by some ways.
pub open spec fn leads_to(ways: Seq<(Spot, Seq<char>)>, at: Spot, name: Seq<char>) -> bool {
    exists|i: int| 0 <= i < ways.len() && #[trigger] ways[i] == (at, name)
}

/// A gem leads to where it comes out; one that comes out in a room leads on to
/// where each way from there does, and one that comes out in the open does not.
pub open spec fn gem_leads_to(g: Gem, at: Spot, name: Seq<char>) -> bool {
    ||| at == g.exit && name == g.name@
    ||| g.exit_cell % 0x1_0000 >= 0x100 && exists|k: int|
        0 <= k < g.onward@.len() && at == (#[trigger] g.onward@[k]).at && name == g.name@
            + ", then "@ + g.onward@[k].name@
}

proof fn lemma_ways_on(g: Gem, n: nat)
    requires
        n <= g.onward@.len(),
    ensures
        ways_on(g, n).len() == n + 1,
        ways_on(g, n)[0] == (g.exit, g.name@),
        forall|k: int|
            0 <= k < n ==> ways_on(g, n)[k + 1] == (
                (#[trigger] g.onward@[k]).at,
                g.name@ + ", then "@ + g.onward@[k].name@,
            ),
    decreases n,
{
    if n > 0 {
        lemma_ways_on(g, (n - 1) as nat);
    }
}

proof fn lemma_low(cell: u32)
    ensures
        (cell & 0xffff) == cell % 0x1_0000,
{
    assert((cell & 0xffff) == cell % 0x1_0000) by (bit_vector);
}

proof fn lemma_gem(g: Gem, at: Spot, name: Seq<char>)
    ensures
        leads_to(
            if crate::ways::is_room(g.exit_cell) {
                ways_on(g, g.onward@.len())
            } else {
                seq![(g.exit, g.name@)]
            },
            at,
            name,
        ) == gem_leads_to(g, at, name),
{
    lemma_low(g.exit_cell);
    lemma_ways_on(g, g.onward@.len());
    let all = ways_on(g, g.onward@.len());
    if crate::ways::is_room(g.exit_cell) {
        if gem_leads_to(g, at, name) {
            if at == g.exit && name == g.name@ {
                assert(all[0] == (at, name));
            } else {
                let k = choose|k: int|
                    0 <= k < g.onward@.len() && at == (#[trigger] g.onward@[k]).at && name
                        == g.name@ + ", then "@ + g.onward@[k].name@;
                assert(all[k + 1] == (at, name));
            }
        }
        if leads_to(all, at, name) {
            let i = choose|i: int| 0 <= i < all.len() && #[trigger] all[i] == (at, name);
            if i > 0 {
                assert(all[(i - 1) + 1] == (
                    g.onward@[i - 1].at,
                    g.name@ + ", then "@ + g.onward@[i - 1].name@,
                ));
            }
        }
    } else {
        let one = seq![(g.exit, g.name@)];
        assert(one[0] == (g.exit, g.name@));
    }
}

proof fn lemma_gems(gems: Seq<Gem>, n: nat, at: Spot, name: Seq<char>)
    requires
        n <= gems.len(),
    ensures
        leads_to(spec_gem_ways(gems, n), at, name) <==> exists|i: int|
            0 <= i < n && gem_leads_to(#[trigger] gems[i], at, name),
    decreases n,
{
    if n > 0 {
        let g = gems[n - 1];
        lemma_gems(gems, (n - 1) as nat, at, name);
        lemma_gem(g, at, name);
        let before = spec_gem_ways(gems, (n - 1) as nat);
        let more = if crate::ways::is_room(g.exit_cell) {
            ways_on(g, g.onward@.len())
        } else {
            seq![(g.exit, g.name@)]
        };
        let all = spec_gem_ways(gems, n);
        assert(all == before + more);
        if leads_to(before, at, name) {
            let i = choose|i: int| 0 <= i < before.len() && #[trigger] before[i] == (at, name);
            assert(all[i] == (at, name));
        }
        if leads_to(more, at, name) {
            let i = choose|i: int| 0 <= i < more.len() && #[trigger] more[i] == (at, name);
            assert(all[before.len() + i] == (at, name));
            assert(gem_leads_to(gems[n - 1], at, name));
        }
        if leads_to(all, at, name) {
            let i = choose|i: int| 0 <= i < all.len() && #[trigger] all[i] == (at, name);
            if i < before.len() {
                assert(before[i] == (at, name));
            } else {
                assert(more[i - before.len()] == (at, name));
            }
        }
    }
}

/// The gems lead to where each of them does, and nowhere else.
pub proof fn law_gems_lead_where_each_does(gems: Seq<Gem>, at: Spot, name: Seq<char>)
    ensures
        leads_to(spec_gem_ways(gems, gems.len()), at, name) <==> exists|i: int|
            0 <= i < gems.len() && gem_leads_to(#[trigger] gems[i], at, name),
{
    lemma_gems(gems, gems.len(), at, name);
}

/// A way can be taken: on foot out in the open, or anywhere where there is no
/// other; by a recall or a gem anywhere; by a door out of a dungeon.
pub open spec fn can_leave_by(b: Bearings, at: Spot, name: Seq<char>) -> bool {
    ||| at == b.me && name == "on foot"@ && (!b.in_dungeon || (b.recalls@.len() == 0
        && b.gems@.len() == 0 && b.doors@.len() == 0))
    ||| exists|i: int|
        0 <= i < b.recalls@.len() && (#[trigger] b.recalls@[i]).at == at && b.recalls@[i].name@
            == name
    ||| exists|i: int| 0 <= i < b.gems@.len() && gem_leads_to(#[trigger] b.gems@[i], at, name)
    ||| b.in_dungeon && exists|i: int|
        0 <= i < b.doors@.len() && (#[trigger] b.doors@[i]).at == at && name == b.doors@[i].name@
            + " (the way out)"@
}

proof fn lemma_joined(
    a: Seq<(Spot, Seq<char>)>,
    b: Seq<(Spot, Seq<char>)>,
    at: Spot,
    name: Seq<char>,
)
    ensures
        leads_to(a + b, at, name) <==> leads_to(a, at, name) || leads_to(b, at, name),
{
    let all = a + b;
    if leads_to(a, at, name) {
        let i = choose|i: int| 0 <= i < a.len() && #[trigger] a[i] == (at, name);
        assert(all[i] == (at, name));
    }
    if leads_to(b, at, name) {
        let i = choose|i: int| 0 <= i < b.len() && #[trigger] b[i] == (at, name);
        assert(all[a.len() + i] == (at, name));
    }
    if leads_to(all, at, name) {
        let i = choose|i: int| 0 <= i < all.len() && #[trigger] all[i] == (at, name);
        if i < a.len() {
            assert(a[i] == (at, name));
        } else {
            assert(b[i - a.len()] == (at, name));
        }
    }
}

proof fn lemma_gems_lead_somewhere(gems: Seq<Gem>, n: nat)
    requires
        n <= gems.len(),
    ensures
        spec_gem_ways(gems, n).len() >= n,
    decreases n,
{
    if n > 0 {
        lemma_gems_lead_somewhere(gems, (n - 1) as nat);
        lemma_ways_on(gems[n - 1], gems[n - 1].onward@.len());
    }
}

/// The ways out are all those that can be taken, and no others.
pub proof fn law_every_way_out_is_listed(b: Bearings, at: Spot, name: Seq<char>)
    ensures
        leads_to(spec_ways_out(b), at, name) <==> can_leave_by(b, at, name),
{
    let feet = seq![(b.me, "on foot"@)];
    let calls = seen(b.recalls@);
    let gems = spec_gem_ways(b.gems@, b.gems@.len());
    let doors = crate::ways::door_ways(b.doors@);
    lemma_gems(b.gems@, b.gems@.len(), at, name);
    lemma_gems_lead_somewhere(b.gems@, b.gems@.len());
    assert(b.gems@.len() == 0 ==> gems.len() == 0);
    assert(leads_to(feet, at, name) <==> at == b.me && name == "on foot"@) by {
        assert(feet[0] == (b.me, "on foot"@));
    }
    assert(leads_to(calls, at, name) <==> exists|i: int|
        0 <= i < b.recalls@.len() && (#[trigger] b.recalls@[i]).at == at && b.recalls@[i].name@
            == name) by {
        if leads_to(calls, at, name) {
            let i = choose|i: int| 0 <= i < calls.len() && #[trigger] calls[i] == (at, name);
            assert(b.recalls@[i].at == at);
        }
        if exists|i: int|
            0 <= i < b.recalls@.len() && (#[trigger] b.recalls@[i]).at == at && b.recalls@[i].name@
                == name {
            let i = choose|i: int|
                0 <= i < b.recalls@.len() && (#[trigger] b.recalls@[i]).at == at
                    && b.recalls@[i].name@ == name;
            assert(calls[i] == (at, name));
        }
    }
    assert(leads_to(doors, at, name) <==> exists|i: int|
        0 <= i < b.doors@.len() && (#[trigger] b.doors@[i]).at == at && name == b.doors@[i].name@
            + " (the way out)"@) by {
        if leads_to(doors, at, name) {
            let i = choose|i: int| 0 <= i < doors.len() && #[trigger] doors[i] == (at, name);
            assert(b.doors@[i].at == at);
        }
        if exists|i: int|
            0 <= i < b.doors@.len() && (#[trigger] b.doors@[i]).at == at && name
                == b.doors@[i].name@ + " (the way out)"@ {
            let i = choose|i: int|
                0 <= i < b.doors@.len() && (#[trigger] b.doors@[i]).at == at && name
                    == b.doors@[i].name@ + " (the way out)"@;
            assert(doors[i] == (at, name));
        }
    }
    if b.in_dungeon {
        lemma_joined(calls, gems, at, name);
        lemma_joined(calls + gems, doors, at, name);
        assert((calls + gems + doors).len() == calls.len() + gems.len() + doors.len());
    } else {
        lemma_joined(feet, calls, at, name);
        lemma_joined(feet + calls, gems, at, name);
        assert((feet + calls + gems).len() > 0);
    }
}

proof fn lemma_first_nearest(ways: Seq<Way>, at: Spot, n: nat)
    requires
        0 < n <= ways.len(),
    ensures
        nearest_of(ways, at, n) is Some,
        0 <= nearest_of(ways, at, n)->0 < n,
        forall|k: int|
            0 <= k < n ==> at.spec_away(ways[nearest_of(ways, at, n)->0].at).place()
                <= at.spec_away((#[trigger] ways[k]).at).place(),
        forall|k: int|
            0 <= k < nearest_of(ways, at, n)->0 ==> at.spec_away(
                ways[nearest_of(ways, at, n)->0].at,
            ).place() < at.spec_away((#[trigger] ways[k]).at).place(),
    decreases n,
{
    if n > 1 {
        lemma_first_nearest(ways, at, (n - 1) as nat);
    } else {
        assert(nearest_of(ways, at, 0) is None);
    }
}

/// The nearest way is the first of those that are as near as any.
pub proof fn law_the_first_of_the_nearest_ways(ways: Seq<Way>, at: Spot)
    requires
        ways.len() > 0,
    ensures
        ({
            let i = nearest_of(ways, at, ways.len())->0;
            &&& 0 <= i < ways.len()
            &&& forall|k: int|
                0 <= k < ways.len() ==> at.spec_away(ways[i].at).place() <= at.spec_away(
                    (#[trigger] ways[k]).at,
                ).place()
            &&& forall|k: int|
                0 <= k < i ==> at.spec_away(ways[i].at).place() < at.spec_away(
                    (#[trigger] ways[k]).at,
                ).place()
        }),
{
    lemma_first_nearest(ways, at, ways.len());
}

} // verus!
