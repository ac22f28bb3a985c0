//! What holds of what the character is short of.

use crate::config::Growth;
use crate::needs::{
    ammo_needs, carried_of, comp_needs, gone_ammo, gone_class, gone_named, gone_of, less,
    named_needs, needs_name, piled_of, spec_needs, AmmoLine, CompLine, Gone, GoneSeen, Leaving,
    Piled, Short, Stores,
};
use crate::sums::total;
use crate::text::{blank, lower_case, trimmed, within};
use crate::things::Thing;
use crate::wares::{spec_worth_stocking, Need, NeedKind};
use vstd::prelude::*;
use vstd::string::*;

verus! {

/// How many are counted of a stack: one where it says none.
pub open spec fn stack_count(n: u32) -> int {
    if n == 0 {
        1
    } else {
        n as int
    }
}

/// How many rounds of ammunition are leaving.
pub open spec fn rounds_leaving(leaving: Leaving) -> int {
    total(
        leaving.stacks@.map_values(
            |g: Gone|
                if g.ammo {
                    g.count as int
                } else {
                    0
                },
        ),
    )
}

/// How many of a weenie class are leaving.
pub open spec fn class_leaving(leaving: Leaving, wcid: u32) -> int {
    total(
        leaving.stacks@.map_values(
            |g: Gone|
                if g.wcid == wcid {
                    g.count as int
                } else {
                    0
                },
        ),
    )
}

proof fn lemma_gone_ammo(s: Seq<Gone>, n: nat)
    requires
        n <= s.len(),
    ensures
        gone_ammo(s, n) >= 0,
        gone_ammo(s, n) == total(
            s.take(n as int).map_values(
                |g: Gone|
                    if g.ammo {
                        g.count as int
                    } else {
                        0
                    },
            ),
        ),
    decreases n,
{
    let f = |g: Gone|
        if g.ammo {
            g.count as int
        } else {
            0
        };
    if n > 0 {
        lemma_gone_ammo(s, (n - 1) as nat);
        assert(s.take(n as int).map_values(f).drop_last() =~= s.take(n - 1).map_values(f));
    }
}

proof fn lemma_gone_class(s: Seq<Gone>, wcid: u32, n: nat)
    requires
        n <= s.len(),
    ensures
        gone_class(s, wcid, n) >= 0,
        gone_class(s, wcid, n) == total(
            s.take(n as int).map_values(
                |g: Gone|
                    if g.wcid == wcid {
                        g.count as int
                    } else {
                        0
                    },
            ),
        ),
    decreases n,
{
    let f = |g: Gone|
        if g.wcid == wcid {
            g.count as int
        } else {
            0
        };
    if n > 0 {
        lemma_gone_class(s, wcid, (n - 1) as nat);
        assert(s.take(n as int).map_values(f).drop_last() =~= s.take(n - 1).map_values(f));
    }
}

proof fn lemma_gone_named(s: Seq<Gone>, want: Seq<char>, n: nat)
    requires
        n <= s.len(),
    ensures
        gone_named(s, want, n) >= 0,
        gone_named(s, want, n) == total(
            s.take(n as int).map_values(
                |g: Gone|
                    if within(g.folded@, want) {
                        g.count as int
                    } else {
                        0
                    },
            ),
        ),
    decreases n,
{
    let f = |g: Gone|
        if within(g.folded@, want) {
            g.count as int
        } else {
            0
        };
    if n > 0 {
        lemma_gone_named(s, want, (n - 1) as nat);
        assert(s.take(n as int).map_values(f).drop_last() =~= s.take(n - 1).map_values(f));
    }
}

/// What is leaving is counted whole: all the stacks of a class, all those whose
/// name holds the words, all that are ammunition, and no others.
pub proof fn law_what_leaves_is_counted_whole(leaving: Leaving, wcid: u32, want: Seq<char>)
    ensures
        rounds_leaving(leaving) >= 0,
        class_leaving(leaving, wcid) >= 0,
        leaving.spec_ammo() == rounds_leaving(leaving),
        leaving.spec_of(wcid) == class_leaving(leaving, wcid),
        gone_named(leaving.stacks@, want, leaving.stacks@.len()) == total(
            leaving.stacks@.map_values(
                |g: Gone|
                    if within(g.folded@, want) {
                        g.count as int
                    } else {
                        0
                    },
            ),
        ),
{
    let s = leaving.stacks@;
    lemma_gone_ammo(s, s.len());
    lemma_gone_class(s, wcid, s.len());
    lemma_gone_named(s, want, s.len());
    assert(s.take(s.len() as int) =~= s);
}

/// What a thing that is on its way out is counted as.
pub open spec fn gone_thing(t: Thing) -> GoneSeen {
    GoneSeen {
        wcid: t.wcid,
        folded: lower_case(t.name@),
        count: if t.stack == 0 {
            1
        } else {
            t.stack
        },
        ammo: t.valid_locations & 0x80_0000 != 0,
    }
}

proof fn lemma_gone_of(things: Seq<Thing>, n: nat)
    requires
        n <= things.len(),
    ensures
        gone_of(things, n) == things.take(n as int).filter(|t: Thing| t.leaving).map_values(
            |t: Thing| gone_thing(t),
        ),
    decreases n,
{
    reveal(Seq::filter);
    let p = |t: Thing| t.leaving;
    let f = |t: Thing| gone_thing(t);
    if n == 0 {
        assert(gone_of(things, n) =~= things.take(0).filter(p).map_values(f));
    } else {
        lemma_gone_of(things, (n - 1) as nat);
        let all = things.take(n as int);
        let t = things[n - 1];
        assert(all.drop_last() =~= things.take(n - 1));
        assert(all.last() == t);
        if t.leaving {
            assert(all.filter(p) =~= things.take(n - 1).filter(p).push(t));
            assert(gone_of(things, n) =~= all.filter(p).map_values(f));
        } else {
            assert(all.filter(p) =~= things.take(n - 1).filter(p));
        }
    }
}

/// What is on its way out of the pack is every carried thing that is leaving, in
/// order, with its class, its name in small letters and how many there are of it,
/// and nothing else.
pub proof fn law_what_leaves_is_what_the_pack_says(things: Seq<Thing>)
    ensures
        gone_of(things, things.len()) == things.filter(|t: Thing| t.leaving).map_values(
            |t: Thing| gone_thing(t),
        ),
{
    lemma_gone_of(things, things.len());
    assert(things.take(things.len() as int) =~= things);
}

/// How many of a thing are carried is what all the stacks hold whose name, in
/// small letters, holds the words.
pub proof fn law_carried_counts_every_stack_of_the_name(things: Seq<Thing>, want: Seq<char>)
    ensures
        carried_of(things, want, things.len()) == total(
            things.map_values(
                |t: Thing|
                    if within(lower_case(t.name@), want) {
                        stack_count(t.stack)
                    } else {
                        0
                    },
            ),
        ),
{
    lemma_carried_of(things, want, things.len());
    assert(things.take(things.len() as int) =~= things);
}

proof fn lemma_carried_of(things: Seq<Thing>, want: Seq<char>, n: nat)
    requires
        n <= things.len(),
    ensures
        carried_of(things, want, n) == total(
            things.take(n as int).map_values(
                |t: Thing|
                    if within(lower_case(t.name@), want) {
                        stack_count(t.stack)
                    } else {
                        0
                    },
            ),
        ),
    decreases n,
{
    let f = |t: Thing|
        if within(lower_case(t.name@), want) {
            stack_count(t.stack)
        } else {
            0
        };
    if n > 0 {
        lemma_carried_of(things, want, (n - 1) as nat);
        assert(things.take(n as int).map_values(f).drop_last() =~= things.take(n - 1).map_values(
            f,
        ));
    }
}

proof fn lemma_piled_of(piles: Seq<Piled>, want: Seq<char>, n: nat)
    requires
        n <= piles.len(),
    ensures
        piled_of(piles, want, n) == total(
            piles.take(n as int).map_values(
                |p: Piled|
                    if within(p.folded@, want) {
                        stack_count(p.stack)
                    } else {
                        0
                    },
            ),
        ),
    decreases n,
{
    let f = |p: Piled|
        if within(p.folded@, want) {
            stack_count(p.stack)
        } else {
            0
        };
    if n > 0 {
        lemma_piled_of(piles, want, (n - 1) as nat);
        assert(piles.take(n as int).map_values(f).drop_last() =~= piles.take(n - 1).map_values(f));
    }
}

/// Of stacks whose names are in small letters already, all whose name holds the
/// words are counted.
pub proof fn law_piles_are_counted_by_their_words(piles: Seq<Piled>, want: Seq<char>)
    ensures
        piled_of(piles, want, piles.len()) == total(
            piles.map_values(
                |p: Piled|
                    if within(p.folded@, want) {
                        stack_count(p.stack)
                    } else {
                        0
                    },
            ),
        ),
{
    lemma_piled_of(piles, want, piles.len());
    assert(piles.take(piles.len() as int) =~= piles);
}

/// How much of something is left once what is leaving has left.
pub open spec fn left_over(carried: u32, gone: int) -> int {
    if carried > gone {
        carried - gone
    } else {
        0
    }
}

/// A need for ammunition of this kind, urgent or not.
pub open spec fn needs_ammo(needs: Seq<Need>, kind: u32, urgent: bool) -> bool {
    exists|i: int|
        0 <= i < needs.len() && (#[trigger] needs[i]).kind == NeedKind::Ammo(kind) && needs[i].urgent
            == urgent
}

/// What is said of ammunition: there is a need for it just where a launcher is in
/// hand and what is left of its rounds is under what is kept, it is for the rest,
/// and it is urgent just where what is left is under a quarter of that and no
/// more can be made.
pub open spec fn ammo_is_right(
    ammo: Option<AmmoLine>,
    gone: int,
    keep: u32,
    needs: Seq<Need>,
) -> bool {
    match ammo {
        None => forall|i: int| 0 <= i < needs.len() ==> !((#[trigger] needs[i]).kind is Ammo),
        Some(a) => {
            let have = left_over(a.carried, gone);
            &&& have < keep / 4 && !a.can_craft ==> needs_ammo(needs, a.kind, true)
            &&& have < keep && (have >= keep / 4 || a.can_craft) ==> needs_ammo(
                needs,
                a.kind,
                false,
            )
            &&& forall|i: int|
                0 <= i < needs.len() && (#[trigger] needs[i]).kind is Ammo ==> {
                    &&& needs[i].kind == NeedKind::Ammo(a.kind)
                    &&& needs[i].name == a.name
                    &&& needs[i].have == have
                    &&& needs[i].keep == keep
                    &&& needs[i].want == keep - have
                    &&& have < keep
                    &&& needs[i].buyable
                    &&& needs[i].from is None
                    &&& needs[i].urgent <==> have < keep / 4 && !a.can_craft
                }
        },
    }
}

/// A component of this line is wanted: it has a class, it would not be sold the
/// moment it was bought, and less is left of it than is kept.
pub open spec fn comp_is_short(c: CompLine, leaving: Leaving) -> bool {
    c.wcid is Some && !c.bought_to_sell && left_over(
        c.carried,
        class_leaving(leaving, c.wcid->0),
    ) < c.keep
}

/// A need is what a component's line comes to.
pub open spec fn is_comp_need(n: Need, c: CompLine, leaving: Leaving) -> bool {
    let have = left_over(c.carried, class_leaving(leaving, c.wcid->0));
    &&& comp_is_short(c, leaving)
    &&& n.kind == NeedKind::Component(c.wcid->0)
    &&& n.name == c.name
    &&& n.have == have
    &&& n.keep == c.keep
    &&& n.want == c.keep - have
    &&& n.buyable == c.buyable
    &&& n.from is None
    &&& n.urgent <==> have < c.keep / 4 && c.buyable
}

/// Some need is what this component's line comes to.
pub open spec fn comp_needed(needs: Seq<Need>, c: CompLine, leaving: Leaving) -> bool {
    exists|i: int| 0 <= i < needs.len() && is_comp_need(#[trigger] needs[i], c, leaving)
}

/// What is said of components: every line that is short is a need, and every
/// need of a component is such a line.
pub open spec fn comps_are_right(
    casts: bool,
    comps: Seq<CompLine>,
    leaving: Leaving,
    needs: Seq<Need>,
) -> bool {
    &&& forall|k: int|
        #![trigger comps[k]]
        0 <= k < comps.len() && casts && comp_is_short(comps[k], leaving) ==> comp_needed(
            needs,
            comps[k],
            leaving,
        )
    &&& forall|i: int|
        0 <= i < needs.len() && (#[trigger] needs[i]).kind is Component ==> casts && exists|k: int|
            0 <= k < comps.len() && is_comp_need(needs[i], #[trigger] comps[k], leaving)
}

/// A line of the buy list is wanted: it names something, keeps some, holds
/// fewer, and buying it is worth anything.
pub open spec fn line_is_short(s: Short, kits: bool) -> bool {
    !blank(s.what@) && s.have < s.keep && spec_worth_stocking(s.what@, kits)
}

/// A need is what a line of the buy list comes to.
pub open spec fn is_named_need(n: Need, s: Short, kits: bool) -> bool {
    &&& line_is_short(s, kits)
    &&& n.kind == NeedKind::Named(s.what)
    &&& n.name == s.what
    &&& n.have == s.have
    &&& n.keep == s.keep
    &&& n.want == s.keep - s.have
    &&& n.urgent == s.urgent
    &&& n.from == s.from
    &&& n.buyable
}

/// What is said of the buy list: every line that is short is answered by a need
/// of its name, that of the first short line of the name; every need of a name is
/// such a line; and none has the name of another.
pub open spec fn lines_are_right(shorts: Seq<Short>, kits: bool, needs: Seq<Need>) -> bool {
    &&& forall|k: int|
        #![trigger shorts[k]]
        0 <= k < shorts.len() && line_is_short(shorts[k], kits) ==> needs_name(
            needs,
            shorts[k].what@,
        )
    &&& forall|i: int|
        0 <= i < needs.len() && (#[trigger] needs[i]).kind is Named ==> exists|k: int|
            0 <= k < shorts.len() && is_named_need(needs[i], #[trigger] shorts[k], kits)
                && forall|j: int|
                0 <= j < k && (#[trigger] shorts[j]).what@ == shorts[k].what@ ==> !line_is_short(
                    shorts[j],
                    kits,
                )
    &&& forall|i: int, j: int|
        0 <= i < j < needs.len() && (#[trigger] needs[i]).kind is Named && (
        #[trigger] needs[j]).kind is Named ==> needs[i].kind->Named_0@ != needs[j].kind->Named_0@
}

proof fn lemma_named(shorts: Seq<Short>, kits: bool, n: nat)
    requires
        n <= shorts.len(),
    ensures
        lines_are_right(shorts.take(n as int), kits, named_needs(shorts, kits, n)),
        forall|i: int|
            0 <= i < named_needs(shorts, kits, n).len() ==> (#[trigger] named_needs(
                shorts,
                kits,
                n,
            )[i]).kind is Named,
    decreases n,
{
    let some = shorts.take(n as int);
    let needs = named_needs(shorts, kits, n);
    if n > 0 {
        lemma_named(shorts, kits, (n - 1) as nat);
        let less = shorts.take(n - 1);
        let before = named_needs(shorts, kits, (n - 1) as nat);
        let s = shorts[n - 1];
        assert(forall|i: int| 0 <= i < before.len() ==> needs[i] == #[trigger] before[i]);
        assert forall|k: int|
            #![trigger some[k]]
            0 <= k < some.len() && line_is_short(some[k], kits) implies needs_name(
            needs,
            some[k].what@,
        ) by {
            if k < n - 1 {
                assert(less[k] == some[k]);
                let i = choose|i: int|
                    0 <= i < before.len() && (#[trigger] before[i]).kind is Named
                        && before[i].kind->Named_0@ == some[k].what@;
                assert(needs[i] == before[i]);
            } else if needs_name(before, s.what@) {
                let i = choose|i: int|
                    0 <= i < before.len() && (#[trigger] before[i]).kind is Named
                        && before[i].kind->Named_0@ == s.what@;
                assert(needs[i] == before[i]);
            } else {
                assert(needs[needs.len() - 1].kind is Named);
            }
        }
        assert forall|i: int|
            0 <= i < needs.len() && (#[trigger] needs[i]).kind is Named implies exists|k: int|
            0 <= k < some.len() && is_named_need(needs[i], #[trigger] some[k], kits) && forall|
                j: int,
            |
                0 <= j < k && (#[trigger] some[j]).what@ == some[k].what@ ==> !line_is_short(
                    some[j],
                    kits,
                ) by {
            if i < before.len() {
                assert(needs[i] == before[i]);
                let k = choose|k: int|
                    0 <= k < less.len() && is_named_need(before[i], #[trigger] less[k], kits)
                        && forall|j: int|
                        0 <= j < k && (#[trigger] less[j]).what@ == less[k].what@
                            ==> !line_is_short(less[j], kits);
                assert(some[k] == less[k]);
                assert forall|j: int|
                    0 <= j < k && (#[trigger] some[j]).what@ == some[k].what@ implies !line_is_short(
                    some[j],
                    kits,
                ) by {
                    assert(less[j] == some[j]);
                }
            } else {
                assert(some[n - 1] == s);
                assert(is_named_need(needs[i], some[n - 1], kits));
                assert forall|j: int|
                    0 <= j < n - 1 && (#[trigger] some[j]).what@ == some[n
                        - 1].what@ implies !line_is_short(some[j], kits) by {
                    assert(less[j] == some[j]);
                    if line_is_short(less[j], kits) {
                        assert(needs_name(before, s.what@));
                    }
                }
            }
        }
        assert forall|i: int, j: int|
            0 <= i < j < needs.len() && (#[trigger] needs[i]).kind is Named && (
            #[trigger] needs[j]).kind is Named implies needs[i].kind->Named_0@
            != needs[j].kind->Named_0@ by {
            if j == before.len() {
                assert(needs[i] == before[i]);
                if before[i].kind->Named_0@ == s.what@ {
                    assert(needs_name(before, s.what@));
                }
            } else {
                assert(needs[i] == before[i] && needs[j] == before[j]);
            }
        }
    }
}

proof fn lemma_comps(comps: Seq<CompLine>, leaving: Leaving, n: nat)
    requires
        n <= comps.len(),
    ensures
        comps_are_right(true, comps.take(n as int), leaving, comp_needs(comps, leaving, n)),
        forall|i: int|
            0 <= i < comp_needs(comps, leaving, n).len() ==> (#[trigger] comp_needs(
                comps,
                leaving,
                n,
            )[i]).kind is Component,
    decreases n,
{
    let some = comps.take(n as int);
    let needs = comp_needs(comps, leaving, n);
    if n > 0 {
        lemma_comps(comps, leaving, (n - 1) as nat);
        let less = comps.take(n - 1);
        let before = comp_needs(comps, leaving, (n - 1) as nat);
        let c = comps[n - 1];
        if let Some(wcid) = c.wcid {
            law_what_leaves_is_counted_whole(leaving, wcid, seq![]);
        }
        assert(forall|i: int| 0 <= i < before.len() ==> needs[i] == #[trigger] before[i]);
        assert forall|k: int|
            #![trigger some[k]]
            0 <= k < some.len() && comp_is_short(some[k], leaving) implies comp_needed(
            needs,
            some[k],
            leaving,
        ) by {
            if k < n - 1 {
                assert(less[k] == some[k]);
                let i = choose|i: int|
                    0 <= i < before.len() && is_comp_need(#[trigger] before[i], some[k], leaving);
                assert(needs[i] == before[i]);
            } else {
                assert(is_comp_need(needs[needs.len() - 1], c, leaving));
            }
        }
        assert forall|i: int|
            0 <= i < needs.len() && (#[trigger] needs[i]).kind is Component implies exists|k: int|
            0 <= k < some.len() && is_comp_need(needs[i], #[trigger] some[k], leaving) by {
            if i < before.len() {
                assert(needs[i] == before[i]);
                let k = choose|k: int|
                    0 <= k < less.len() && is_comp_need(before[i], #[trigger] less[k], leaving);
                assert(some[k] == less[k]);
            } else {
                assert(some[n - 1] == c);
                assert(is_comp_need(needs[i], some[n - 1], leaving));
            }
        }
    }
}

/// What the character is short of, kind by kind: every line of the buy list that
/// is short, ammunition for the launcher in hand, and every component its spells
/// burn that is short; each by as much as it wants, and urgent just where it says.
pub proof fn law_everything_short_is_needed(
    s: Stores,
    leaving: Leaving,
    cfg: Growth,
    needs: Seq<Need>,
)
    requires
        needs == spec_needs(s, leaving, cfg),
    ensures
        lines_are_right(s.shorts@, s.heals_with_kits, needs),
        ammo_is_right(
            match s.ammo {
                Some(a) => Some(*a),
                None => None,
            },
            rounds_leaving(leaving),
            cfg.ammo_keep,
            needs,
        ),
        comps_are_right(s.casts, s.comps@, leaving, needs),
{
    let a = named_needs(s.shorts@, s.heals_with_kits, s.shorts@.len());
    let ammo = match s.ammo {
        Some(a) => Some(*a),
        None => None,
    };
    let b = ammo_needs(ammo, leaving.spec_ammo(), cfg.ammo_keep);
    let c = if s.casts {
        comp_needs(s.comps@, leaving, s.comps@.len())
    } else {
        seq![]
    };
    lemma_named(s.shorts@, s.heals_with_kits, s.shorts@.len());
    lemma_comps(s.comps@, leaving, s.comps@.len());
    law_what_leaves_is_counted_whole(leaving, 0, seq![]);
    assert(s.shorts@.take(s.shorts@.len() as int) =~= s.shorts@);
    assert(s.comps@.take(s.comps@.len() as int) =~= s.comps@);
    assert(needs == a + b + c);
    assert forall|i: int| 0 <= i < needs.len() implies (#[trigger] needs[i]) == if i < a.len() {
        a[i]
    } else if i < a.len() + b.len() {
        b[i - a.len()]
    } else {
        c[i - a.len() - b.len()]
    } by {}
    assert forall|k: int|
        #![trigger s.shorts@[k]]
        0 <= k < s.shorts@.len() && line_is_short(
            s.shorts@[k],
            s.heals_with_kits,
        ) implies needs_name(needs, s.shorts@[k].what@) by {
        let i = choose|i: int|
            0 <= i < a.len() && (#[trigger] a[i]).kind is Named && a[i].kind->Named_0@
                == s.shorts@[k].what@;
        assert(needs[i] == a[i]);
    }
    assert forall|k: int|
        #![trigger s.comps@[k]]
        0 <= k < s.comps@.len() && s.casts && comp_is_short(
            s.comps@[k],
            leaving,
        ) implies comp_needed(needs, s.comps@[k], leaving) by {
        let i = choose|i: int|
            0 <= i < c.len() && is_comp_need(#[trigger] c[i], s.comps@[k], leaving);
        assert(needs[a.len() + b.len() + i] == c[i]);
    }
    if b.len() > 0 {
        assert(needs[a.len() as int] == b[0]);
    }
}

/// A healing kit is worth stocking to nobody but one who can use it, and
/// everything else to anybody.
pub proof fn law_only_kits_are_passed_over(name: Seq<char>)
    ensures
        spec_worth_stocking(name, true),
        spec_worth_stocking(name, false) <==> !within(lower_case(name), "healing kit"@),
{
}

/// What a buy-list line names is leaving by as many as there are of all that leave
/// whose name holds the line's words, without what stands round them and in small
/// letters; a line that names nothing names nothing that leaves.
pub proof fn law_what_a_line_names_is_leaving(leaving: Leaving, line: Seq<char>)
    ensures
        lower_case(trimmed(line)).len() == 0 ==> leaving.spec_named(line) == 0,
        lower_case(trimmed(line)).len() > 0 ==> leaving.spec_named(line) == total(
            leaving.stacks@.map_values(
                |g: Gone|
                    if within(g.folded@, lower_case(trimmed(line))) {
                        g.count as int
                    } else {
                        0
                    },
            ),
        ),
{
    law_what_leaves_is_counted_whole(leaving, 0, lower_case(trimmed(line)));
}

/// What is held as stock is what is carried less what leaves, and nothing where
/// more leaves than is carried.
pub proof fn law_what_is_held_as_stock(carried: u32, gone: u32)
    ensures
        carried >= gone ==> less(carried as int, gone as int) == carried - gone,
        carried < gone ==> less(carried as int, gone as int) == 0,
{
}

} // verus!
