//! Where the character can cheaply be: on its own feet, by recall, by gem, or
//! out of the dungeon it stands in.

use crate::place::Spot;
use crate::single::Single;
use crate::text::{cat2, cat3};
use crate::vendors::Way;
use vstd::prelude::*;
use vstd::string::*;

verus! {

/// A gem in the pack: what it is called, where it comes out, and where the
/// portals standing there come out in turn.
#[derive(Clone, Debug)]
pub struct Gem {
    pub name: String,
    pub exit: Spot,
    pub exit_cell: u32,
    pub onward: Vec<Way>,
}

/// What some ways are: where they lead, and what they are called.
pub open spec fn seen(ways: Seq<Way>) -> Seq<(Spot, Seq<char>)> {
    ways.map_values(|w: Way| (w.at, w.name@))
}

/// A cell is a room rather than a piece of open ground.
pub open spec fn is_room(cell: u32) -> bool {
    cell & 0xffff >= 0x100
}

/// The ways on from a gem's exit, each behind the gem.
pub open spec fn ways_on(gem: Gem, n: nat) -> Seq<(Spot, Seq<char>)>
    decreases n,
{
    if n == 0 {
        seq![(gem.exit, gem.name@)]
    } else {
        ways_on(gem, (n - 1) as nat).push(
            (gem.onward@[n - 1].at, gem.name@ + ", then "@ + gem.onward@[n - 1].name@),
        )
    }
}

/// Where the first `n` gems can put the character.
pub open spec fn spec_gem_ways(gems: Seq<Gem>, n: nat) -> Seq<(Spot, Seq<char>)>
    decreases n,
{
    if n == 0 {
        seq![]
    } else {
        let g = gems[n - 1];
        spec_gem_ways(gems, (n - 1) as nat) + if is_room(g.exit_cell) {
            ways_on(g, g.onward@.len())
        } else {
            seq![(g.exit, g.name@)]
        }
    }
}

/// Where each carried gem can put the character, as ways out.
///
/// A gem that lands outdoors lands where it lands. One that lands indoors is
/// worth more than its landing: every portal standing there is a few steps away
/// and each of those comes out somewhere. The landing still counts too.
pub fn gem_ways(gems: &[Gem]) -> (r: Vec<Way>)
    ensures
        seen(r@) == spec_gem_ways(gems@, gems@.len()),
{
    let mut out: Vec<Way> = Vec::new();
    let mut i: usize = 0;
    assert(seen(out@) =~= spec_gem_ways(gems@, 0));
    while i < gems.len()
        invariant
            i <= gems.len(),
            seen(out@) == spec_gem_ways(gems@, i as nat),
        decreases gems.len() - i,
    {
        let g = &gems[i];
        let ghost before = out@;
        out.push(Way { at: g.exit, name: g.name.clone() });
        assert(seen(out@) =~= seen(before) + ways_on(*g, 0));
        if g.exit_cell & 0xffff >= 0x100 {
            let mut k: usize = 0;
            while k < g.onward.len()
                invariant
                    k <= g.onward.len(),
                    seen(out@) == seen(before) + ways_on(*g, k as nat),
                decreases g.onward.len() - k,
            {
                let ghost so_far = out@;
                let name = cat3(g.name.as_str(), ", then ", g.onward[k].name.as_str());
                out.push(Way { at: g.onward[k].at, name });
                assert(seen(out@) =~= seen(so_far).push((g.onward@[k as int].at, name@)));
                assert(seen(out@) =~= seen(before) + ways_on(*g, (k + 1) as nat));
                k = k + 1;
            }
        }
        i = i + 1;
    }
    out
}

/// What the character can tell of where it is and what it carries.
pub struct Bearings<'a> {
    pub me: Spot,
    pub in_dungeon: bool,
    /// Where each recall it can cast would land it.
    pub recalls: &'a [Way],
    pub gems: &'a [Gem],
    /// Where the portals out of the dungeon it stands in come up.
    pub doors: &'a [Way],
}

/// The doors of a dungeon, as ways out.
pub open spec fn door_ways(doors: Seq<Way>) -> Seq<(Spot, Seq<char>)> {
    doors.map_values(|w: Way| (w.at, w.name@ + " (the way out)"@))
}

/// Everywhere the character can cheaply be.
pub open spec fn spec_ways_out(b: Bearings) -> Seq<(Spot, Seq<char>)> {
    let feet = seq![(b.me, "on foot"@)];
    let out = if b.in_dungeon {
        seen(b.recalls@) + spec_gem_ways(b.gems@, b.gems@.len()) + door_ways(b.doors@)
    } else {
        feet + seen(b.recalls@) + spec_gem_ways(b.gems@, b.gems@.len())
    };
    if out.len() == 0 {
        feet
    } else {
        out
    }
}

/// Everywhere the character can cheaply be: where it stands, unless where it
/// stands leads nowhere; where its recalls and its gems would put it; and,
/// underground, where the dungeon's own doors come up. With nothing to hand the
/// feet are all there is, wherever they are.
pub fn ways_out(b: &Bearings) -> (r: Vec<Way>)
    ensures
        seen(r@) == spec_ways_out(*b),
        r.len() > 0,
{
    let mut out: Vec<Way> = Vec::new();
    let ghost feet = seq![(b.me, "on foot"@)];
    if !b.in_dungeon {
        out.push(Way { at: b.me, name: String::from_str("on foot") });
        assert(seen(out@) =~= feet);
    }
    let ghost first = seen(out@);
    let mut i: usize = 0;
    assert(first + seen(b.recalls@.take(0)) =~= first);
    while i < b.recalls.len()
        invariant
            i <= b.recalls.len(),
            seen(out@) == first + seen(b.recalls@.take(i as int)),
        decreases b.recalls.len() - i,
    {
        let ghost so_far = out@;
        out.push(Way { at: b.recalls[i].at, name: b.recalls[i].name.clone() });
        assert(seen(out@) =~= seen(so_far).push(
            (b.recalls@[i as int].at, b.recalls@[i as int].name@),
        ));
        assert(seen(out@) =~= first + seen(b.recalls@.take(i + 1)));
        i = i + 1;
    }
    assert(b.recalls@.take(i as int) =~= b.recalls@);
    let ghost two = out@;
    let mut gems = gem_ways(b.gems);
    let ghost from_gems = gems@;
    out.append(&mut gems);
    assert(seen(out@) =~= seen(two) + seen(from_gems));
    let ghost three = seen(out@);
    if b.in_dungeon {
        i = 0;
        assert(three + door_ways(b.doors@.take(0)) =~= three);
        while i < b.doors.len()
            invariant
                i <= b.doors.len(),
                seen(out@) == three + door_ways(b.doors@.take(i as int)),
            decreases b.doors.len() - i,
        {
            let ghost so_far = out@;
            let name = cat2(b.doors[i].name.as_str(), " (the way out)");
            out.push(Way { at: b.doors[i].at, name });
            assert(seen(out@) =~= seen(so_far).push((b.doors@[i as int].at, name@)));
            assert(seen(out@) =~= three + door_ways(b.doors@.take(i + 1)));
            i = i + 1;
        }
        assert(b.doors@.take(i as int) =~= b.doors@);
        assert(first =~= Seq::<(Spot, Seq<char>)>::empty());
        assert(seen(out@) =~= seen(b.recalls@) + spec_gem_ways(b.gems@, b.gems@.len()) + door_ways(
            b.doors@,
        ));
    }
    assert(out@.len() == seen(out@).len());
    if out.len() == 0 {
        out.push(Way { at: b.me, name: String::from_str("on foot") });
        assert(seen(out@) =~= feet);
    }
    out
}

/// Which of the first `n` ways leaves the character nearest `at`, the first of
/// several as near.
pub open spec fn nearest_of(ways: Seq<Way>, at: Spot, n: nat) -> Option<int>
    decreases n,
{
    if n == 0 {
        None
    } else {
        let i = n - 1;
        let best = nearest_of(ways, at, i as nat);
        if best is Some && at.spec_away(ways[best->0].at).place() <= at.spec_away(
            ways[i].at,
        ).place() {
            best
        } else {
            Some(i)
        }
    }
}

/// Which way out leaves the character nearest `at`, how far that is, and what
/// it is called.
pub fn nearest_way(ways: &[Way], at: Spot) -> (r: (Spot, Single, String))
    ensures
        match nearest_of(ways@, at, ways@.len()) {
            Some(i) => r == (ways@[i].at, at.spec_away(ways@[i].at), ways@[i].name),
            None => r.0 == at && r.1 == (Single { bits: 0 }) && r.2@ == "here"@,
        },
{
    let mut best: Option<usize> = None;
    let mut i: usize = 0;
    while i < ways.len()
        invariant
            i <= ways.len(),
            match best {
                Some(k) => nearest_of(ways@, at, i as nat) == Some(k as int) && k < i,
                None => nearest_of(ways@, at, i as nat) is None,
            },
        decreases ways.len() - i,
    {
        match best {
            Some(k) => {
                if at.away(ways[i].at).stands_before(at.away(ways[k].at)) {
                    best = Some(i);
                }
            },
            None => {
                best = Some(i);
            },
        }
        i = i + 1;
    }
    match best {
        Some(k) => (ways[k].at, at.away(ways[k].at), ways[k].name.clone()),
        None => (at, Single { bits: 0 }, String::from_str("here")),
    }
}

/// The way taken is one there is, and none leaves the character nearer.
pub proof fn law_no_way_is_nearer(ways: Seq<Way>, at: Spot, n: nat)
    requires
        0 < n <= ways.len(),
    ensures
        nearest_of(ways, at, n) is Some,
        0 <= nearest_of(ways, at, n)->0 < n,
        forall|k: int|
            0 <= k < n ==> at.spec_away(ways[nearest_of(ways, at, n)->0].at).place()
                <= at.spec_away((#[trigger] ways[k]).at).place(),
    decreases n,
{
    if n > 1 {
        law_no_way_is_nearer(ways, at, (n - 1) as nat);
    } else {
        assert(nearest_of(ways, at, 0) is None);
    }
}

} // verus!
