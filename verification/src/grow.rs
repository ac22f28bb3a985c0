//! The growth rules as a whole: spend experience, run to town, find monsters.

use crate::clock::Moment;
use crate::config::{Growth, Team};
use crate::counters::{Shop, Ware};
use crate::logistics::{GroupMode, Supplies};
use crate::orders::{deeds, give, note, say, Deed, Doing, Order};
use crate::party::{grow_mode, is_mode};
use crate::place::Spot;
use crate::records::{unknown_item, ItemStats, LootAction};
use crate::state::{hand_has_let_go, spec_hand_has_let_go, State};
use crate::stops::{window_left, window_no_longer_wanted};
use crate::text::cat3;
use vstd::prelude::*;
use vstd::string::*;

verus! {

/// Whether autoplay's tick is the thing that steps runs to town: autoplay on,
/// with town runs on. When it is not, the vendoring panel is.
pub fn autoplay_drives_town_runs(enabled: bool, cfg: &Growth) -> (r: bool)
    ensures
        r == (enabled && cfg.town_runs),
{
    enabled && cfg.town_runs
}

/// What the growth rules see before they begin.
#[derive(Clone, Copy, Debug)]
pub struct GrowLook {
    /// The server has said who the character is.
    pub in_world: bool,
    /// Where the character stands, where it stands outdoors.
    pub outdoors: Option<Spot>,
    /// It is indoors and in a dungeon.
    pub underground: bool,
    /// The player chose an area to hunt in.
    pub roams_an_area: bool,
    /// A counter's window is open.
    pub window_open: bool,
}

/// A run is dropped because town runs were turned off.
pub open spec fn drops_run(st: State, cfg: Growth) -> bool {
    !cfg.town_runs && !st.by_hand && st.run is Some
}

/// The state once the rules have looked about and let go of what was turned
/// off.
pub open spec fn is_begun(before: State, after: State, look: GrowLook, cfg: Growth) -> bool {
    let drops = drops_run(before, cfg);
    let grounds = cfg.hunt_grounds || look.roams_an_area;
    &&& if drops {
        after.needs@.len() == 0
    } else {
        after.needs == before.needs
    }
    &&& after == (State {
        last_outdoors: match look.outdoors {
            Some(at) => Some(at),
            None => before.last_outdoors,
        },
        in_dungeon: look.underground,
        run: if drops {
            None
        } else {
            before.run
        },
        needs: after.needs,
        bound: if grounds {
            before.bound
        } else {
            None
        },
        bound_since: if grounds {
            before.bound_since
        } else {
            None
        },
        window_unwanted: if drops {
            window_left(before.run->0, look.window_open, before.window_unwanted)
        } else {
            before.window_unwanted
        },
        ..before
    })
}

/// What letting go of what was turned off asks for.
pub open spec fn begun_orders(before: State, look: GrowLook, cfg: Growth) -> Seq<Deed> {
    if drops_run(before, cfg) && look.window_open {
        seq![Deed::CloseVendor]
    } else {
        seq![]
    }
}

/// Look about, and let go of an errand whose setting was turned off part-way. A
/// run let go at its counter leaves its window behind, and nothing closes it but
/// this client.
pub fn begin_growing(st: &mut State, look: GrowLook, cfg: &Growth, out: &mut Vec<Order>)
    ensures
        is_begun(*old(st), *final(st), look, *cfg),
        deeds(final(out)@) == deeds(old(out)@) + begun_orders(*old(st), look, *cfg),
{
    if let Some(at) = look.outdoors {
        st.last_outdoors = Some(at);
    }
    st.in_dungeon = look.underground;
    let dropped = st.drop_what_is_turned_off(
        cfg.town_runs,
        cfg.hunt_grounds || look.roams_an_area,
    );
    if let Some(run) = dropped {
        window_no_longer_wanted(st, run.phase, run.since, look.window_open);
        if look.window_open {
            give(out, Order::CloseVendor);
        }
    }
    assert(deeds(out@) =~= deeds(old(out)@) + begun_orders(*old(st), look, *cfg));
}

/// What is left of a tick once the panel has had its say.
#[derive(Clone, Copy, Debug, PartialEq, Eq, Structural)]
pub enum GrowNext {
    /// The character is not in the world.
    Nothing,
    /// The tick is the panel's.
    Claimed,
    /// Go on: with a run to town where `town` says so, and then with the hunt.
    GoOn { town: bool, mode: GroupMode },
}

/// What becomes of a run that the panel drives.
pub open spec fn panel_has_its_say(
    before: State,
    after: State,
    cfg: Growth,
    now: Moment,
    given: Seq<Deed>,
    orders: Seq<Deed>,
    next: GrowNext,
) -> bool {
    if !(before.by_hand && before.run is Some) {
        &&& after == before
        &&& orders == given
        &&& next == (GrowNext::GoOn { town: cfg.town_runs, mode: before.mode })
    } else if !spec_hand_has_let_go(before.hand_stepped, now) {
        &&& after == before
        &&& orders == given
        &&& next == GrowNext::Claimed
    } else if !cfg.town_runs {
        &&& after == before
        &&& orders == given.push(
            Deed::Say(
                Doing::Shopping,
                "the run to "@ + before.run->0.vendor@ + " is held by the vendoring panel"@,
            ),
        )
        &&& next == GrowNext::Claimed
    } else {
        &&& after == (State { by_hand: false, ..before })
        &&& orders == given.push(
            Deed::Note("the vendoring panel let go of its run: autoplay takes it on"@),
        )
        &&& next == (GrowNext::GoOn { town: true, mode: before.mode })
    }
}

/// A run the vendoring panel is driving is the panel's to step, and has the tick
/// whether or not town runs are on. Let go of for a while with town runs on, it
/// is autoplay's again; with them off, the panel is the one thing running it,
/// and the status line says so.
fn hear_the_panel(st: &mut State, cfg: &Growth, now: Moment, out: &mut Vec<Order>) -> (r: GrowNext)
    ensures
        panel_has_its_say(
            *old(st),
            *final(st),
            *cfg,
            now,
            deeds(old(out)@),
            deeds(final(out)@),
            r,
        ),
{
    if st.run_by_hand() {
        if !hand_has_let_go(st.hand_stepped, now) {
            return GrowNext::Claimed;
        }
        if !cfg.town_runs {
            if let Some(run) = &st.run {
                say(
                    out,
                    Doing::Shopping,
                    cat3("the run to ", run.vendor.as_str(), " is held by the vendoring panel"),
                );
            }
            return GrowNext::Claimed;
        }
        st.by_hand = false;
        note(
            out,
            String::from_str("the vendoring panel let go of its run: autoplay takes it on"),
        );
    }
    GrowNext::GoOn { town: cfg.town_runs, mode: st.mode }
}

/// One tick of the growth rules, as far as the run to town: look about, let go
/// of what was turned off, work out what the party is doing, and hear the panel.
pub open spec fn grows(
    before: State,
    after: State,
    look: GrowLook,
    cfg: Growth,
    team: Team,
    party: Seq<Supplies>,
    mates: nat,
    now: Moment,
    given: Seq<Deed>,
    orders: Seq<Deed>,
    next: GrowNext,
) -> bool {
    if !look.in_world {
        after == before && orders == given && next == GrowNext::Nothing
    } else {
        exists|begun: State, mid: State, said: Seq<Deed>|
            is_begun(before, begun, look, cfg) && #[trigger] is_mode(
                begun,
                mid,
                team,
                party,
                mates,
                now,
                given + begun_orders(before, look, cfg),
                said,
            ) && panel_has_its_say(mid, after, cfg, now, said, orders, next)
    }
}

/// The growth rules, once a tick when nothing more pressing claimed it: what to
/// go on with. Experience is not spent here but as housekeeping: this is the last
/// goal, and a rank that waited for it would wait for good.
pub fn autoplay_grow(
    st: &mut State,
    look: GrowLook,
    cfg: &Growth,
    team: &Team,
    party: &[Supplies],
    mates: usize,
    now: Moment,
    out: &mut Vec<Order>,
) -> (r: GrowNext)
    requires
        !team.restock.go_at.nan(),
        old(st).round < u32::MAX,
    ensures
        grows(
            *old(st),
            *final(st),
            look,
            *cfg,
            *team,
            party@,
            mates as nat,
            now,
            deeds(old(out)@),
            deeds(final(out)@),
            r,
        ),
{
    if !look.in_world {
        return GrowNext::Nothing;
    }
    begin_growing(st, look, cfg, out);
    let ghost begun = *st;
    grow_mode(st, team, party, mates, now, out);
    let ghost mid = *st;
    let ghost said = deeds(out@);
    assert(is_mode(
        begun,
        mid,
        *team,
        party@,
        mates as nat,
        now,
        deeds(old(out)@) + begun_orders(*old(st), look, *cfg),
        said,
    ));
    hear_the_panel(st, cfg, now, out)
}

/// Whether the tick goes on to the hunt. A party that has stopped to restock does
/// not wander off to a new hunting ground in the middle of it, and nor does one
/// that has given up and stopped in town. An area the player chose is walked
/// about whether or not the character is left to find grounds of its own.
pub fn goes_hunting(st: &State, cfg: &Growth, roams_an_area: bool, mode: GroupMode) -> (r: bool)
    ensures
        r == ((cfg.hunt_grounds || roams_an_area) && mode is Hunting && !st.stopped_in_town),
{
    (cfg.hunt_grounds || roams_an_area) && mode.hunting() && !st.stopped_in_town
}

/// Nothing wanders off while the panel holds a run: a tick on which it does goes
/// on to nothing.
pub proof fn law_a_run_in_hand_is_left_to_the_panel(
    before: State,
    after: State,
    look: GrowLook,
    cfg: Growth,
    team: Team,
    party: Seq<Supplies>,
    mates: nat,
    now: Moment,
    given: Seq<Deed>,
    orders: Seq<Deed>,
    next: GrowNext,
)
    requires
        grows(before, after, look, cfg, team, party, mates, now, given, orders, next),
        look.in_world,
        before.by_hand,
        before.run is Some,
        !spec_hand_has_let_go(before.hand_stepped, now) || !cfg.town_runs,
    ensures
        next == GrowNext::Claimed,
        after.run == before.run,
        after.by_hand,
{
}

/// What kind of thing a spell component is.
pub const SPELL_COMPONENTS: u32 = 0x1000;

/// How many of a bought component one stack can hold.
pub const BOUGHT_STACK: u32 = 1_000;

/// What the first ware of a class is listed at, from `i` on.
pub open spec fn listed_from(wares: Seq<Ware>, wcid: u32, i: int) -> Option<u32>
    decreases wares.len() - i,
{
    if i >= wares.len() {
        None
    } else if wares[i].wcid == wcid {
        Some(wares[i].value)
    } else {
        listed_from(wares, wcid, i + 1)
    }
}

/// What the first shop that sells a class lists it at, from `i` on.
pub open spec fn sold_from(shops: Seq<Shop>, wcid: u32, i: int) -> Option<u32>
    decreases shops.len() - i,
{
    if i >= shops.len() {
        None
    } else {
        match listed_from(shops[i].sells@, wcid, 0) {
            Some(v) => Some(v),
            None => sold_from(shops, wcid, i + 1),
        }
    }
}

fn find_listed(wares: &Vec<Ware>, wcid: u32) -> (r: Option<u32>)
    ensures
        r == listed_from(wares@, wcid, 0),
{
    let mut i: usize = 0;
    while i < wares.len()
        invariant
            i <= wares.len(),
            listed_from(wares@, wcid, 0) == listed_from(wares@, wcid, i as int),
        decreases wares.len() - i,
    {
        if wares[i].wcid == wcid {
            return Some(wares[i].value);
        }
        i = i + 1;
    }
    None
}

/// What one of a component is worth: what the counter in front of the character
/// lists it at, else the first of the world's shops that sells it, else nothing.
pub open spec fn worth_of(shelf: Option<&Vec<Ware>>, shops: Seq<Shop>, wcid: u32) -> u32 {
    let here = match shelf {
        Some(wares) => listed_from(wares@, wcid, 0),
        None => None,
    };
    match here {
        Some(v) => v,
        None => match sold_from(shops, wcid, 0) {
            Some(v) => v,
            None => 0,
        },
    }
}

pub open spec fn capped(n: int) -> u32 {
    if n > u32::MAX {
        u32::MAX
    } else {
        n as u32
    }
}

/// What a purchase of `count` of a component arrives as, worth what a counter
/// lists it at. `kind` is the word for its kind.
pub fn bought_as(
    wcid: u32,
    name: &str,
    count: u32,
    kind: &'static str,
    shelf: Option<&Vec<Ware>>,
    shops: &[Shop],
) -> (r: ItemStats)
    ensures
        ({
            let n: int = if count == 0 {
                1
            } else {
                count as int
            };
            &&& r.name@ == name@
            &&& exists|blank: ItemStats| #[trigger]
                unknown_item(blank) && r == (ItemStats {
                    name: r.name,
                    wcid,
                    item_type: SPELL_COMPONENTS,
                    kind,
                    stack: n as u32,
                    max_stack: BOUGHT_STACK,
                    value: capped(worth_of(shelf, shops@, wcid) * n),
                    ..blank
                })
        }),
{
    let mut each: Option<u32> = match shelf {
        Some(wares) => find_listed(wares, wcid),
        None => None,
    };
    let mut i: usize = 0;
    let ghost here = each;
    while i < shops.len() && each.is_none()
        invariant
            i <= shops.len(),
            here is Some ==> each == here,
            here is None ==> (each is None ==> sold_from(shops@, wcid, 0) == sold_from(
                shops@,
                wcid,
                i as int,
            )) && (each is Some ==> each == sold_from(shops@, wcid, 0)),
        decreases shops.len() - i,
    {
        each = find_listed(&shops[i].sells, wcid);
        i = i + 1;
    }
    let unit: u32 = match each {
        Some(v) => v,
        None => 0,
    };
    let n: u32 = if count == 0 {
        1
    } else {
        count
    };
    assert(unit * n <= 0xffff_ffff * 0xffff_ffff) by (nonlinear_arith)
        requires
            0 <= unit <= 0xffff_ffff,
            0 <= n <= 0xffff_ffff,
    ;
    let worth: u64 = unit as u64 * n as u64;
    let value: u32 = if worth > u32::MAX as u64 {
        u32::MAX
    } else {
        worth as u32
    };
    let blank = ItemStats::default();
    let ghost nothing = blank;
    assert(unknown_item(nothing));
    ItemStats {
        name: String::from_str(name),
        wcid,
        item_type: SPELL_COMPONENTS,
        kind,
        stack: n,
        max_stack: BOUGHT_STACK,
        value,
        ..blank
    }
}

/// Whether a purchase would be taken straight back to a counter: there is a
/// profile, and of what arrives it decides that it is sold.
pub fn bought_to_sell(has_profile: bool, decided: Option<LootAction>) -> (r: bool)
    ensures
        r == (has_profile && decided == Some(LootAction::Sell)),
{
    match decided {
        Some(LootAction::Sell) => has_profile,
        _ => false,
    }
}

} // verus!
