//! What the team does between fights: the mode it is all in, and the money it
//! needs to get back on its feet.
//!
//! A party is hunting or it is restocking. The mode is decided from what the
//! whole roster says about itself, so that every session reaches the same
//! answer from the same roster. The party leaves for town while everyone still
//! has enough to fight their way out, and comes back at a higher bar than it
//! left at. It goes all together, or it sends one character, the quartermaster,
//! with everyone's loot and everyone's shopping list. After selling, whoever is
//! over their own bill hands the difference to whoever is under theirs.

use crate::order::{arranged, sort, Ranked};
use crate::single::Single;
use crate::text::{
    blank, cat2, cat3, cat4, cat5, count, counted, is_blank, join, join_all, joined, precedes, said,
    same, show, shown, stands_first, told,
};
use vstd::prelude::*;
use vstd::string::*;

verus! {

/// Where a restocking trip has got to. A trip everyone makes together has only
/// one stage; a quartermaster run has three.
#[derive(Clone, Copy, Debug, PartialEq, Eq, Structural)]
pub enum Stage {
    /// Everyone is walking to town and buying for themselves.
    Shopping,
    /// Everyone is handing the quartermaster their sale loot and their order.
    HandOver,
    /// The quartermaster is in town; the rest hold at the hunting ground.
    Away,
    /// The quartermaster is back and giving out what it bought.
    HandOut,
}

/// What the party is doing.
#[derive(Clone, Copy, Debug, PartialEq, Eq, Structural)]
pub enum GroupMode {
    /// Out in the field, fighting.
    Hunting,
    /// Selling, buying and getting back together.
    Restocking(Stage),
}

/// How a restocking trip is made.
#[derive(Clone, Copy, Debug, PartialEq, Eq, Structural)]
pub enum Plan {
    /// Everyone walks to town and shops for themselves.
    Everyone,
    /// One character carries the party's sale loot and its shopping list to
    /// town and brings the goods back.
    Quartermaster,
}

impl Default for Stage {
    fn default() -> (r: Stage)
        ensures
            r == Stage::Shopping,
    {
        Stage::Shopping
    }
}

impl Default for GroupMode {
    fn default() -> (r: GroupMode)
        ensures
            r == GroupMode::Hunting,
    {
        GroupMode::Hunting
    }
}

impl Default for Plan {
    fn default() -> (r: Plan)
        ensures
            r == Plan::Everyone,
    {
        Plan::Everyone
    }
}

impl Stage {
    pub open spec fn words(self) -> Seq<char> {
        match self {
            Stage::Shopping => "shopping"@,
            Stage::HandOver => "loading the quartermaster"@,
            Stage::Away => "waiting for the quartermaster"@,
            Stage::HandOut => "handing out supplies"@,
        }
    }

    pub fn label(self) -> (r: &'static str)
        ensures
            r@ == self.words(),
    {
        match self {
            Stage::Shopping => "shopping",
            Stage::HandOver => "loading the quartermaster",
            Stage::Away => "waiting for the quartermaster",
            Stage::HandOut => "handing out supplies",
        }
    }
}

impl GroupMode {
    pub open spec fn words(self) -> Seq<char> {
        match self {
            GroupMode::Hunting => "hunting"@,
            GroupMode::Restocking(s) => s.words(),
        }
    }

    pub fn label(self) -> (r: &'static str)
        ensures
            r@ == self.words(),
    {
        match self {
            GroupMode::Hunting => "hunting",
            GroupMode::Restocking(s) => s.label(),
        }
    }

    /// Whether the party is off fighting.
    pub fn hunting(self) -> (r: bool)
        ensures
            r == (self is Hunting),
    {
        match self {
            GroupMode::Hunting => true,
            GroupMode::Restocking(_) => false,
        }
    }

    /// The stage of the trip, if one is under way.
    pub fn stage(self) -> (r: Option<Stage>)
        ensures
            r == match self {
                GroupMode::Hunting => None,
                GroupMode::Restocking(s) => Some(s),
            },
    {
        match self {
            GroupMode::Hunting => None,
            GroupMode::Restocking(s) => Some(s),
        }
    }
}

impl Plan {
    /// Every way of making a trip.
    pub const ALL: [Plan; 2] = [Plan::Everyone, Plan::Quartermaster];

    pub fn label(self) -> (r: &'static str)
        ensures
            r@ == match self {
                Plan::Everyone => "everyone goes to town"@,
                Plan::Quartermaster => "one character shops for the party"@,
            },
    {
        match self {
            Plan::Everyone => "everyone goes to town",
            Plan::Quartermaster => "one character shops for the party",
        }
    }
}

/// 1.0
pub const WHOLE: u32 = 0x3f80_0000;

/// 0.95
pub const LATEST: u32 = 0x3f73_3333;

/// 0.05
pub const APART: u32 = 0x3d4c_cccd;

/// 100.0
pub const HUNDRED: u32 = 0x42c8_0000;

/// How the party keeps itself supplied: when to go, how to go, and what to do
/// about money.
#[derive(Clone, Copy, Debug, PartialEq, Eq, Structural)]
pub struct Restock {
    /// Restock as a party rather than one at a time.
    pub together: bool,
    /// How the party makes the trip.
    pub plan: Plan,
    /// The fewest free pack slots a quartermaster needs before the party will
    /// trust it with the run.
    pub runner_space: u32,
    /// The whole party goes shopping once any one member is down to this
    /// fraction of a full load.
    pub go_at: Single,
    /// A character counts as stocked again at this fraction.
    pub full_at: Single,
    /// Pyreals to keep in hand after shopping, for the next trip.
    pub float: u32,
    /// Pack slots to keep free while selling.
    pub keep_slots: u32,
    /// Turn what is left over into trade notes, and share the notes out so
    /// everyone can pay their own way.
    pub share_money: bool,
    /// How many trips the quartermaster may make before the party settles for
    /// what it has.
    pub max_rounds: u32,
    /// Give up on a trip that has taken this many seconds and go back to
    /// hunting.
    pub give_up_after: Single,
}

impl Default for Restock {
    fn default() -> (r: Restock)
        ensures
            r == (Restock {
                together: true,
                plan: Plan::Everyone,
                runner_space: 10,
                go_at: Single { bits: 0x3eb3_3333 },
                full_at: Single { bits: 0x3f66_6666 },
                float: 5_000,
                keep_slots: 3,
                share_money: true,
                max_rounds: 4,
                give_up_after: Single { bits: 0x4461_0000 },
            }),
    {
        Restock {
            together: true,
            plan: Plan::default(),
            runner_space: 10,
            // 0.35
            go_at: Single { bits: 0x3eb3_3333 },
            // 0.9
            full_at: Single { bits: 0x3f66_6666 },
            float: 5_000,
            keep_slots: 3,
            share_money: true,
            max_rounds: 4,
            // 900.0
            give_up_after: Single { bits: 0x4461_0000 },
        }
    }
}

impl Restock {
    /// The bar for leaving.
    pub open spec fn leave_at(self) -> Single {
        self.go_at.within(Single { bits: 0 }, Single { bits: LATEST })
    }

    /// The policy with its bars put in order.
    pub open spec fn sound(self) -> Restock {
        Restock {
            go_at: self.leave_at(),
            full_at: self.full_at.within(
                self.leave_at().sum(Single { bits: APART }),
                Single { bits: WHOLE },
            ),
            ..self
        }
    }

    /// Guard against a policy that would make the party thrash: the bar for
    /// coming home must sit above the bar for leaving.
    pub fn sane(&self) -> (r: Restock)
        requires
            !self.go_at.nan(),
        ensures
            r == self.sound(),
    {
        let go = self.go_at.clamp(Single { bits: 0 }, Single { bits: LATEST });
        let full = self.full_at.clamp(go.plus(Single { bits: APART }), Single { bits: WHOLE });
        Restock {
            together: self.together,
            plan: self.plan,
            runner_space: self.runner_space,
            go_at: go,
            full_at: full,
            float: self.float,
            keep_slots: self.keep_slots,
            share_money: self.share_money,
            max_rounds: self.max_rounds,
            give_up_after: self.give_up_after,
        }
    }
}

/// What one character says about its own supplies, for the party to decide on.
#[derive(Clone, Debug)]
pub struct Supplies {
    /// Who it is.
    pub name: String,
    /// Its worst-off supply, as a fraction of what it wants to carry: 0.0 out,
    /// 1.0 full. A character that wants nothing is 1.0.
    pub level: Single,
    /// It cannot pick anything else up.
    pub pack_full: bool,
    /// It carries as much loot as it means to.
    pub laden: bool,
    /// It has been to the vendors it needed and is ready to go back.
    pub stocked: bool,
    /// What its remaining shopping will cost, in pyreals.
    pub bill: u32,
    /// What it can spend: coin and notes together.
    pub purse: u32,
    /// It has bought everything it can pay for.
    pub broke: bool,
    /// Free slots in its pack: what decides who can be quartermaster.
    pub free_space: u32,
    /// It has given the quartermaster its sale loot and its order.
    pub handed_over: bool,
    /// The quartermaster still has goods in its pack that belong to somebody
    /// else.
    pub holding_orders: bool,
    /// What it wants brought back, by name and count.
    pub order: Vec<(String, u32)>,
    /// It carries loot tagged for a counter that is worth a trip by its own
    /// rules.
    pub sale: bool,
}

impl Default for Supplies {
    fn default() -> (r: Supplies)
        ensures
            r.name@.len() == 0,
            r.order@.len() == 0,
            r == (Supplies {
                name: r.name,
                level: Single { bits: 0 },
                pack_full: false,
                laden: false,
                stocked: false,
                bill: 0,
                purse: 0,
                broke: false,
                free_space: 0,
                handed_over: false,
                holding_orders: false,
                order: r.order,
                sale: false,
            }),
    {
        Supplies {
            name: String::new(),
            level: Single { bits: 0 },
            pack_full: false,
            laden: false,
            stocked: false,
            bill: 0,
            purse: 0,
            broke: false,
            free_space: 0,
            handed_over: false,
            holding_orders: false,
            order: Vec::new(),
            sale: false,
        }
    }
}

impl Supplies {
    pub open spec fn spec_wants_town(self, cfg: Restock) -> bool {
        self.pack_full || self.laden || self.sale || self.level.below(cfg.go_at)
    }

    pub open spec fn spec_settled(self) -> bool {
        self.stocked || self.broke
    }

    /// Whether this character alone is reason enough to go shopping.
    pub fn wants_town(&self, cfg: &Restock) -> (r: bool)
        ensures
            r == self.spec_wants_town(*cfg),
    {
        self.pack_full || self.laden || self.sale || self.level.lt(cfg.go_at)
    }

    /// Whether the party need wait for it no longer.
    pub fn settled(&self) -> (r: bool)
        ensures
            r == self.spec_settled(),
    {
        self.stocked || self.broke
    }
}

/// Why the party changes what it does, for the log and the UI.
#[derive(Clone, Debug, PartialEq)]
pub struct Switch {
    pub mode: GroupMode,
    pub because: String,
}

/// One member short of something, by how much it has left.
#[derive(Clone, Copy)]
pub struct Low {
    pub level: Single,
    pub at: usize,
}

impl Ranked for Low {
    open spec fn before(self, other: Low) -> bool {
        self.level.place() < other.level.place()
    }

    fn goes_before(&self, other: &Low) -> (r: bool) {
        self.level.stands_before(other.level)
    }
}

/// The first `n` members, those of them that want to go to town.
pub open spec fn lows(mates: Seq<Supplies>, cfg: Restock, n: nat) -> Seq<Low>
    decreases n,
{
    if n == 0 {
        seq![]
    } else {
        let i = n - 1;
        let rest = lows(mates, cfg, i as nat);
        if mates[i].spec_wants_town(cfg) {
            rest.push(Low { level: mates[i].level, at: i as usize })
        } else {
            rest
        }
    }
}

/// Why a member wants to go to town.
pub open spec fn reason(m: Supplies) -> Seq<char> {
    if m.pack_full {
        m.name@ + "'s pack is full"@
    } else if m.laden {
        m.name@ + " is carrying as much as it means to"@
    } else if m.sale {
        m.name@ + " is carrying loot for a counter"@
    } else {
        m.name@ + " is down to "@ + shown(m.level.product(Single { bits: HUNDRED }))
            + "% supplies"@
    }
}

/// Why the party goes to town: every member that wants to, the worst off
/// first.
pub open spec fn reasons(mates: Seq<Supplies>, cfg: Restock) -> Seq<char> {
    joined(
        arranged(lows(mates, cfg, mates.len())).map_values(|l: Low| reason(mates[l.at as int])),
        ", "@,
    )
}

/// Whether a member is a better runner than another: more room in its pack;
/// with the same room, more money; and after that the name that stands first.
pub open spec fn outranks(a: Supplies, b: Supplies) -> bool {
    ||| a.free_space > b.free_space
    ||| a.free_space == b.free_space && a.purse > b.purse
    ||| a.free_space == b.free_space && a.purse == b.purse && precedes(a.name@, b.name@)
}

/// Which of the first `n` members makes the run: the best of those with a
/// name, the last where several are alike.
pub open spec fn runner(mates: Seq<Supplies>, n: nat) -> Option<int>
    decreases n,
{
    if n == 0 {
        None
    } else {
        let i = n - 1;
        let best = runner(mates, i as nat);
        if mates[i].name@.len() == 0 {
            best
        } else if best is Some && outranks(mates[best->0], mates[i]) {
            best
        } else {
            Some(i)
        }
    }
}

proof fn lemma_runner_in_range(mates: Seq<Supplies>, n: nat)
    requires
        n <= mates.len(),
    ensures
        runner(mates, n) is Some ==> 0 <= runner(mates, n)->0 < n && mates[runner(
            mates,
            n,
        )->0].name@.len() > 0,
    decreases n,
{
    if n > 0 {
        lemma_runner_in_range(mates, (n - 1) as nat);
    }
}

fn is_better_runner(a: &Supplies, b: &Supplies) -> (r: bool)
    ensures
        r == outranks(*a, *b),
{
    if a.free_space != b.free_space {
        a.free_space > b.free_space
    } else if a.purse != b.purse {
        a.purse > b.purse
    } else {
        stands_first(a.name.as_str(), b.name.as_str())
    }
}

fn runner_at(mates: &[Supplies]) -> (r: Option<usize>)
    ensures
        r is None <==> runner(mates@, mates@.len()) is None,
        r is Some ==> runner(mates@, mates@.len()) == Some(r->0 as int) && r->0 < mates.len(),
{
    let mut best: Option<usize> = None;
    let mut i: usize = 0;
    while i < mates.len()
        invariant
            i <= mates.len(),
            best is None <==> runner(mates@, i as nat) is None,
            best is Some ==> runner(mates@, i as nat) == Some(best->0 as int) && best->0 < i,
        decreases mates.len() - i,
    {
        if !mates[i].name.as_str().is_empty() {
            match best {
                Some(b) => {
                    if !is_better_runner(&mates[b], &mates[i]) {
                        best = Some(i);
                    }
                },
                None => {
                    best = Some(i);
                },
            }
        }
        i = i + 1;
    }
    best
}

/// Who makes the run for the party: the one with the most room in its pack;
/// between two with the same room, the one already holding the money; and
/// after that the name, so that every session picks the same character without
/// having to agree on one.
pub fn quartermaster(mates: &[Supplies]) -> (r: Option<&Supplies>)
    ensures
        r is None <==> runner(mates@, mates@.len()) is None,
        r is Some ==> *r->0 == mates@[runner(mates@, mates@.len())->0],
{
    match runner_at(mates) {
        Some(i) => Some(&mates[i]),
        None => None,
    }
}

/// The stage a trip starts in.
pub open spec fn spec_opening_stage(mates: Seq<Supplies>, cfg: Restock) -> Stage {
    if cfg.plan == Plan::Quartermaster && mates.len() >= 2 && runner(mates, mates.len()) is Some
        && mates[runner(mates, mates.len())->0].free_space >= cfg.runner_space {
        Stage::HandOver
    } else {
        Stage::Shopping
    }
}

/// The stage a trip starts in. A quartermaster run needs somebody able to
/// carry the party's loot out and its order back, and needs somebody else to
/// carry it for; without either, the party walks to town.
pub fn opening_stage(mates: &[Supplies], cfg: &Restock) -> (r: Stage)
    ensures
        r == spec_opening_stage(mates@, *cfg),
{
    if cfg.plan != Plan::Quartermaster || mates.len() < 2 {
        return Stage::Shopping;
    }
    match quartermaster(mates) {
        Some(q) => {
            if q.free_space >= cfg.runner_space {
                Stage::HandOver
            } else {
                Stage::Shopping
            }
        },
        None => Stage::Shopping,
    }
}

/// What a change of mode says: the mode, and why.
pub open spec fn said_switch(r: Option<Switch>) -> Option<(GroupMode, Seq<char>)> {
    match r {
        None => None,
        Some(s) => Some((s.mode, s.because@)),
    }
}

pub open spec fn somebody_wants_town(mates: Seq<Supplies>, cfg: Restock) -> bool {
    exists|i: int| 0 <= i < mates.len() && (#[trigger] mates[i]).spec_wants_town(cfg)
}

/// Whether the party stops hunting.
pub open spec fn spec_start_trip(mates: Seq<Supplies>, cfg: Restock) -> Option<
    (GroupMode, Seq<char>),
> {
    if somebody_wants_town(mates, cfg) {
        Some((GroupMode::Restocking(spec_opening_stage(mates, cfg)), reasons(mates, cfg)))
    } else {
        None
    }
}

fn why(m: &Supplies) -> (r: String)
    ensures
        r@ == reason(*m),
{
    let name = m.name.as_str();
    if m.pack_full {
        cat2(name, "'s pack is full")
    } else if m.laden {
        cat2(name, " is carrying as much as it means to")
    } else if m.sale {
        cat2(name, " is carrying loot for a counter")
    } else {
        let left = show(m.level.times(Single { bits: HUNDRED }));
        cat4(name, " is down to ", left.as_str(), "% supplies")
    }
}

proof fn lemma_lows(mates: Seq<Supplies>, cfg: Restock, n: nat)
    requires
        n <= mates.len(),
    ensures
        lows(mates, cfg, n).len() <= n,
        forall|k: int|
            0 <= k < lows(mates, cfg, n).len() ==> (#[trigger] lows(mates, cfg, n)[k]).at < n,
        (lows(mates, cfg, n).len() == 0) == (forall|i: int|
            0 <= i < n ==> !(#[trigger] mates[i]).spec_wants_town(cfg)),
    decreases n,
{
    if n > 0 {
        lemma_lows(mates, cfg, (n - 1) as nat);
    }
}

/// Whether the party should stop hunting, and what shape of trip it should
/// make. One member short is enough.
pub fn start_trip(mates: &[Supplies], cfg: &Restock) -> (r: Option<Switch>)
    ensures
        said_switch(r) == spec_start_trip(mates@, *cfg),
{
    let mut short: Vec<Low> = Vec::new();
    let mut i: usize = 0;
    while i < mates.len()
        invariant
            i <= mates.len(),
            short@ == lows(mates@, *cfg, i as nat),
        decreases mates.len() - i,
    {
        if mates[i].wants_town(cfg) {
            short.push(Low { level: mates[i].level, at: i });
        }
        i = i + 1;
    }
    let ghost all = short@;
    proof {
        lemma_lows(mates@, *cfg, mates@.len());
        crate::order::lemma_arranged_keeps(all);
    }
    if short.len() == 0 {
        return None;
    }
    let short = sort(short);
    let mut texts: Vec<String> = Vec::new();
    i = 0;
    let ghost line = |l: Low| reason(mates@[l.at as int]);
    while i < short.len()
        invariant
            i <= short.len(),
            all.to_multiset() == short@.to_multiset(),
            forall|k: int| 0 <= k < all.len() ==> (#[trigger] all[k]).at < mates.len(),
            line == (|l: Low| reason(mates@[l.at as int])),
            told(texts@) == short@.take(i as int).map_values(line),
        decreases short.len() - i,
    {
        proof {
            lemma_same_things(all, short@, i as int);
        }
        let ghost so_far = texts@;
        texts.push(why(&mates[short[i].at]));
        proof {
            assert(told(texts@) =~= told(so_far).push(line(short@[i as int])));
            assert(short@.take(i + 1).map_values(line) =~= short@.take(i as int).map_values(
                line,
            ).push(line(short@[i as int])));
        }
        i = i + 1;
    }
    assert(short@.take(i as int) =~= short@);
    let because = join_all(&texts, ", ");
    Some(Switch { mode: GroupMode::Restocking(opening_stage(mates, cfg)), because })
}

/// What stands in a row stands in every row of the same things.
proof fn lemma_same_things<T>(a: Seq<T>, b: Seq<T>, i: int)
    requires
        a.to_multiset() == b.to_multiset(),
        0 <= i < b.len(),
    ensures
        a.contains(b[i]),
{
    b.to_multiset_ensures();
    a.to_multiset_ensures();
    assert(b.contains(b[i]));
    assert(a.to_multiset().count(b[i]) > 0);
}

/// The names of those among the first `n` members that the party waits for.
pub open spec fn waited_for(mates: Seq<Supplies>, n: nat) -> Seq<Seq<char>>
    decreases n,
{
    if n == 0 {
        seq![]
    } else {
        let rest = waited_for(mates, (n - 1) as nat);
        if mates[n - 1].spec_settled() {
            rest
        } else {
            rest.push(mates[n - 1].name@)
        }
    }
}

/// Whoever is still shopping, for the ones who have finished to wait on.
pub fn still_shopping(mates: &[Supplies]) -> (r: Vec<&str>)
    ensures
        said(r@) == waited_for(mates@, mates@.len()),
{
    let mut r: Vec<&str> = Vec::new();
    let mut i: usize = 0;
    while i < mates.len()
        invariant
            i <= mates.len(),
            said(r@) == waited_for(mates@, i as nat),
        decreases mates.len() - i,
    {
        if !mates[i].settled() {
            let ghost so_far = r@;
            r.push(mates[i].name.as_str());
            assert(said(r@) =~= said(so_far).push(mates@[i as int].name@));
        }
        i = i + 1;
    }
    r
}

pub open spec fn all_settled(mates: Seq<Supplies>) -> bool {
    forall|i: int| 0 <= i < mates.len() ==> (#[trigger] mates[i]).spec_settled()
}

/// Everyone but `name` has given up its loot and its order.
pub open spec fn loaded(mates: Seq<Supplies>, name: Seq<char>) -> bool {
    forall|i: int|
        0 <= i < mates.len() ==> (#[trigger] mates[i]).name@ == name || mates[i].handed_over
}

/// The next stage of a trip, if it has reached it, and why.
pub open spec fn spec_advance_trip(
    stage: Stage,
    mates: Seq<Supplies>,
    cfg: Restock,
    round: u32,
) -> Option<(GroupMode, Seq<char>)> {
    let who = runner(mates, mates.len());
    let q = mates[who->0];
    match stage {
        Stage::Shopping => if all_settled(mates) {
            Some((GroupMode::Hunting, "everyone is restocked"@))
        } else {
            None
        },
        Stage::HandOver => if who is Some && loaded(mates, q.name@) {
            Some(
                (
                    GroupMode::Restocking(Stage::Away),
                    q.name@ + " has the party's loot and orders"@,
                ),
            )
        } else {
            None
        },
        Stage::Away => if who is Some && q.spec_settled() {
            Some(
                (
                    GroupMode::Restocking(Stage::HandOut),
                    q.name@ + " is back with the supplies"@,
                ),
            )
        } else {
            None
        },
        Stage::HandOut => if all_settled(mates) {
            Some((GroupMode::Hunting, "everyone has their supplies"@))
        } else if who is None || q.holding_orders {
            None
        } else if round + 1 >= cfg.max_rounds {
            Some(
                (
                    GroupMode::Hunting,
                    "back to hunting after "@ + counted((round + 1) as nat) + " trips; "@ + joined(
                        waited_for(mates, mates.len()),
                        ", "@,
                    ) + " still short"@,
                ),
            )
        } else {
            Some(
                (
                    GroupMode::Restocking(Stage::HandOver),
                    "one trip was not enough; "@ + q.name@ + " is going back"@,
                ),
            )
        },
    }
}

fn everyone_settled(mates: &[Supplies]) -> (r: bool)
    ensures
        r == all_settled(mates@),
{
    let mut i: usize = 0;
    while i < mates.len()
        invariant
            i <= mates.len(),
            forall|k: int| 0 <= k < i ==> (#[trigger] mates@[k]).spec_settled(),
        decreases mates.len() - i,
    {
        if !mates[i].settled() {
            return false;
        }
        i = i + 1;
    }
    true
}

fn everyone_else_loaded(mates: &[Supplies], name: &str) -> (r: bool)
    ensures
        r == loaded(mates@, name@),
{
    let mut i: usize = 0;
    while i < mates.len()
        invariant
            i <= mates.len(),
            forall|k: int|
                0 <= k < i ==> (#[trigger] mates@[k]).name@ == name@ || mates@[k].handed_over,
        decreases mates.len() - i,
    {
        if !mates[i].handed_over && !same(mates[i].name.as_str(), name) {
            return false;
        }
        i = i + 1;
    }
    true
}

/// Whether the trip has reached its next stage.
///
/// Everyone shopping for themselves go back together. The runner leaves once
/// everyone else has given it their loot and their order, the rest hold until
/// it says it is done, and then it gives out what it bought: over when everyone
/// has what it asked for, and another round when its pack is empty and somebody
/// still has not, until the rounds are used up.
pub fn advance_trip(stage: Stage, mates: &[Supplies], cfg: &Restock, round: u32) -> (r: Option<
    Switch,
>)
    requires
        stage == Stage::HandOut ==> round < u32::MAX,
    ensures
        said_switch(r) == spec_advance_trip(stage, mates@, *cfg, round),
{
    match stage {
        Stage::Shopping => {
            if everyone_settled(mates) {
                Some(
                    Switch {
                        mode: GroupMode::Hunting,
                        because: String::from_str("everyone is restocked"),
                    },
                )
            } else {
                None
            }
        },
        Stage::HandOver => {
            match quartermaster(mates) {
                Some(q) => {
                    if everyone_else_loaded(mates, q.name.as_str()) {
                        Some(
                            Switch {
                                mode: GroupMode::Restocking(Stage::Away),
                                because: cat2(
                                    q.name.as_str(),
                                    " has the party's loot and orders",
                                ),
                            },
                        )
                    } else {
                        None
                    }
                },
                None => None,
            }
        },
        Stage::Away => {
            match quartermaster(mates) {
                Some(q) => {
                    if q.settled() {
                        Some(
                            Switch {
                                mode: GroupMode::Restocking(Stage::HandOut),
                                because: cat2(q.name.as_str(), " is back with the supplies"),
                            },
                        )
                    } else {
                        None
                    }
                },
                None => None,
            }
        },
        Stage::HandOut => {
            if everyone_settled(mates) {
                return Some(
                    Switch {
                        mode: GroupMode::Hunting,
                        because: String::from_str("everyone has their supplies"),
                    },
                );
            }
            match quartermaster(mates) {
                Some(q) => {
                    if q.holding_orders {
                        return None;
                    }
                    if round + 1 >= cfg.max_rounds {
                        let short = still_shopping(mates);
                        assert(short@.take(short@.len() as int) =~= short@);
                        let names = join(short.as_slice(), short.len(), ", ");
                        let trips = count((round + 1) as u128);
                        return Some(
                            Switch {
                                mode: GroupMode::Hunting,
                                because: cat5(
                                    "back to hunting after ",
                                    trips.as_str(),
                                    " trips; ",
                                    names.as_str(),
                                    " still short",
                                ),
                            },
                        );
                    }
                    Some(
                        Switch {
                            mode: GroupMode::Restocking(Stage::HandOver),
                            because: cat3(
                                "one trip was not enough; ",
                                q.name.as_str(),
                                " is going back",
                            ),
                        },
                    )
                },
                None => None,
            }
        },
    }
}

/// The mode the party should be in, if that is another one, and why.
pub open spec fn decided(
    now: GroupMode,
    mates: Seq<Supplies>,
    cfg: Restock,
    round: u32,
) -> Option<(GroupMode, Seq<char>)> {
    if mates.len() == 0 {
        None
    } else {
        match now {
            GroupMode::Hunting => spec_start_trip(mates, cfg.sound()),
            GroupMode::Restocking(stage) => spec_advance_trip(stage, mates, cfg.sound(), round),
        }
    }
}

/// The mode the party should be in, given what everyone has said.
///
/// `now` is the mode it is in. `mates` is the whole roster, this character
/// included; an empty roster means nobody has spoken yet, in which case nothing
/// changes. The answer depends only on the arguments, so every session in the
/// party works out the same one.
pub fn decide(now: GroupMode, mates: &[Supplies], cfg: &Restock, round: u32) -> (r: Option<Switch>)
    requires
        !cfg.go_at.nan(),
        now == GroupMode::Restocking(Stage::HandOut) ==> round < u32::MAX,
    ensures
        said_switch(r) == decided(now, mates@, *cfg, round),
{
    let cfg = cfg.sane();
    if mates.len() == 0 {
        return None;
    }
    match now {
        GroupMode::Hunting => start_trip(mates, &cfg),
        GroupMode::Restocking(stage) => advance_trip(stage, mates, &cfg, round),
    }
}

/// How full a supply line is, as a fraction.
pub open spec fn spec_line_level(have: u32, want: u32) -> Single {
    if want == 0 {
        Single { bits: WHOLE }
    } else {
        Single::whole(have as int).quotient(Single::whole(want as int)).smaller(
            Single { bits: WHOLE },
        )
    }
}

/// How full a supply line is: `have` against `want`. A line that wants nothing
/// is full, not empty.
pub fn line_level(have: u32, want: u32) -> (r: Single)
    ensures
        r == spec_line_level(have, want),
{
    if want == 0 {
        return Single { bits: WHOLE };
    }
    Single::from_u32(have).over(Single::from_u32(want)).min(Single { bits: WHOLE })
}

/// Every line that the first `n` members order, in one row.
pub open spec fn lines(mates: Seq<Supplies>, n: nat) -> Seq<(String, u32)>
    decreases n,
{
    if n == 0 {
        seq![]
    } else {
        lines(mates, (n - 1) as nat) + mates[n - 1].order@
    }
}

/// How many of `name` some lines order between them.
pub open spec fn tally(s: Seq<(String, u32)>, name: Seq<char>) -> int
    decreases s.len(),
{
    if s.len() == 0 {
        0
    } else {
        tally(s.drop_last(), name) + if s.last().0@ == name {
            s.last().1 as int
        } else {
            0
        }
    }
}

/// `out` is what `s` orders: each thing once, in the order of their names, with
/// how many are ordered; no blanks and no noughts.
pub open spec fn totals(out: Seq<(String, u32)>, s: Seq<(String, u32)>) -> bool {
    &&& forall|i: int, j: int|
        0 <= i < j < out.len() ==> precedes((#[trigger] out[i]).0@, (#[trigger] out[j]).0@)
    &&& forall|i: int|
        0 <= i < out.len() ==> !blank((#[trigger] out[i]).0@) && out[i].1 > 0 && out[i].1 == tally(
            s,
            out[i].0@,
        )
    &&& forall|name: Seq<char>| !blank(name) && #[trigger] tally(s, name) > 0 ==> listed(out, name)
}

pub open spec fn listed(out: Seq<(String, u32)>, name: Seq<char>) -> bool {
    exists|i: int| 0 <= i < out.len() && (#[trigger] out[i]).0@ == name
}

proof fn lemma_tally_prefix(s: Seq<(String, u32)>, t: Seq<(String, u32)>, name: Seq<char>)
    ensures
        tally(s + t, name) >= tally(s, name) >= 0,
    decreases s.len() + t.len(),
{
    if t.len() == 0 {
        assert(s + t =~= s);
        if s.len() > 0 {
            lemma_tally_prefix(s.drop_last(), t, name);
            assert(s.drop_last() + t =~= s.drop_last());
        }
    } else {
        assert((s + t).drop_last() =~= s + t.drop_last());
        lemma_tally_prefix(s, t.drop_last(), name);
    }
}

/// Adding one more line to a merged order.
fn add_line(out: &mut Vec<(String, u32)>, name: &String, number: u32, Ghost(s): Ghost<
    Seq<(String, u32)>,
>)
    requires
        totals(old(out)@, s),
        !blank(name@) ==> tally(s.push((*name, number)), name@) <= u32::MAX,
    ensures
        totals(final(out)@, s.push((*name, number))),
{
    let ghost t = s.push((*name, number));
    proof {
        assert(t.drop_last() =~= s);
        assert(forall|n: Seq<char>| #[trigger]
            tally(t, n) == tally(s, n) + if name@ == n {
                number as int
            } else {
                0
            });
        assert forall|n: Seq<char>| #[trigger] tally(s, n) >= 0 by {
            lemma_tally_prefix(s, seq![], n);
        }
    }
    if number == 0 || is_blank(name.as_str()) {
        assert forall|n: Seq<char>| !blank(n) && #[trigger] tally(t, n) > 0 implies listed(
            out@,
            n,
        ) by {
            assert(tally(s, n) > 0);
        }
        return;
    }
    let mut k: usize = 0;
    while k < out.len() && stands_first(out[k].0.as_str(), name.as_str())
        invariant
            k <= out.len(),
            forall|i: int| 0 <= i < k ==> precedes((#[trigger] out@[i]).0@, name@),
        decreases out.len() - k,
    {
        k = k + 1;
    }
    let ghost before = out@;
    if k < out.len() && same(out[k].0.as_str(), name.as_str()) {
        proof {
            assert(before[k as int].1 == tally(s, name@));
        }
        let total: u32 = out[k].1 + number;
        let line = (name.clone(), total);
        out.set(k, line);
        proof {
            assert forall|i: int| 0 <= i < out@.len() implies !blank((#[trigger] out@[i]).0@)
                && out@[i].1 > 0 && out@[i].1 == tally(t, out@[i].0@) by {
                if i != k {
                    assert(out@[i] == before[i]);
                    if i < k {
                        assert(precedes(before[i].0@, before[k as int].0@));
                    } else {
                        assert(precedes(before[k as int].0@, before[i].0@));
                    }
                    crate::text::lemma_precedes_irreflexive(name@);
                }
            }
            assert forall|i: int, j: int| 0 <= i < j < out@.len() implies precedes(
                (#[trigger] out@[i]).0@,
                (#[trigger] out@[j]).0@,
            ) by {
                assert(precedes(before[i].0@, before[j].0@));
            }
            assert forall|n: Seq<char>| !blank(n) && #[trigger] tally(t, n) > 0 implies listed(
                out@,
                n,
            ) by {
                if n == name@ {
                    assert(out@[k as int].0@ == n);
                } else {
                    assert(tally(s, n) > 0);
                    assert(listed(before, n));
                    let i = choose|i: int| 0 <= i < before.len() && (#[trigger] before[i]).0@ == n;
                    assert(out@[i].0@ == n);
                }
            }
        }
        return;
    }
    proof {
        // Nothing listed has this name: those before it stand first, and it
        // stands first before the rest.
        assert forall|i: int| k <= i < before.len() implies precedes(
            name@,
            (#[trigger] before[i]).0@,
        ) by {
            if !precedes(name@, before[k as int].0@) {
                crate::text::lemma_precedes_total(name@, before[k as int].0@);
            }
            if i > k {
                assert(precedes(before[k as int].0@, before[i].0@));
                crate::text::lemma_precedes_transitive(name@, before[k as int].0@, before[i].0@);
            }
        }
        if tally(s, name@) > 0 {
            assert(listed(before, name@));
            let i = choose|i: int| 0 <= i < before.len() && (#[trigger] before[i]).0@ == name@;
            crate::text::lemma_precedes_irreflexive(name@);
            assert(false);
        }
    }
    out.insert(k, (name.clone(), number));
    proof {
        assert forall|i: int, j: int| 0 <= i < j < out@.len() implies precedes(
            (#[trigger] out@[i]).0@,
            (#[trigger] out@[j]).0@,
        ) by {
            let a = if i <= k {
                i
            } else {
                i - 1
            };
            let b = if j <= k {
                j
            } else {
                j - 1
            };
            if i == k {
                assert(precedes(name@, before[b].0@));
            } else if j == k {
                assert(precedes(before[a].0@, name@));
            } else {
                assert(precedes(before[a].0@, before[b].0@));
            }
        }
        assert forall|i: int| 0 <= i < out@.len() implies !blank((#[trigger] out@[i]).0@)
            && out@[i].1 > 0 && out@[i].1 == tally(t, out@[i].0@) by {
            if i < k {
                assert(out@[i] == before[i]);
            } else if i > k {
                assert(out@[i] == before[i - 1]);
            }
            if i != k {
                crate::text::lemma_precedes_irreflexive(name@);
            }
        }
        assert forall|n: Seq<char>| !blank(n) && #[trigger] tally(t, n) > 0 implies listed(
            out@,
            n,
        ) by {
            if n == name@ {
                assert(out@[k as int].0@ == n);
            } else {
                assert(tally(s, n) > 0);
                assert(listed(before, n));
                let i = choose|i: int| 0 <= i < before.len() && (#[trigger] before[i]).0@ == n;
                if i < k {
                    assert(out@[i].0@ == n);
                } else {
                    assert(out@[i + 1].0@ == n);
                }
            }
        }
    }
}

/// Everything the party wants bought, gathered into one list for the
/// quartermaster to shop from. Orders for the same thing are added up, so one
/// trip to the archmage buys every mage's tapers at once.
pub fn merged_order(mates: &[Supplies]) -> (r: Vec<(String, u32)>)
    requires
        forall|name: Seq<char>|
            !blank(name) ==> #[trigger] tally(lines(mates@, mates@.len()), name) <= u32::MAX,
    ensures
        totals(r@, lines(mates@, mates@.len())),
{
    let mut out: Vec<(String, u32)> = Vec::new();
    let mut i: usize = 0;
    let ghost all = lines(mates@, mates@.len());
    while i < mates.len()
        invariant
            i <= mates.len(),
            all == lines(mates@, mates@.len()),
            forall|name: Seq<char>| !blank(name) ==> #[trigger] tally(all, name) <= u32::MAX,
            totals(out@, lines(mates@, i as nat)),
        decreases mates.len() - i,
    {
        let order = &mates[i].order;
        let ghost s = lines(mates@, i as nat);
        let mut k: usize = 0;
        assert(s + order@.take(0) =~= s);
        while k < order.len()
            invariant
                k <= order.len(),
                i < mates.len(),
                *order == mates@[i as int].order,
                s == lines(mates@, i as nat),
                all == lines(mates@, mates@.len()),
                forall|name: Seq<char>| !blank(name) ==> #[trigger] tally(all, name) <= u32::MAX,
                totals(out@, s + order@.take(k as int)),
            decreases order.len() - k,
        {
            proof {
                let t = s + order@.take(k as int);
                let u = s + order@.take(k + 1);
                assert(t.push((order@[k as int].0, order@[k as int].1)) =~= u);
                lemma_lines_prefix(mates@, i as nat, order@.take(k + 1));
                let rest = choose|rest: Seq<(String, u32)>| all == #[trigger] (u + rest);
                lemma_tally_prefix(u, rest, order@[k as int].0@);
            }
            add_line(&mut out, &order[k].0, order[k].1, Ghost(s + order@.take(k as int)));
            k = k + 1;
        }
        assert(order@.take(k as int) =~= order@);
        i = i + 1;
    }
    out
}

/// The lines of some members with a part of the next one's are a prefix of all
/// the lines.
proof fn lemma_lines_prefix(mates: Seq<Supplies>, i: nat, part: Seq<(String, u32)>)
    requires
        i < mates.len(),
        exists|k: int| 0 <= k <= mates[i as int].order@.len() && part == #[trigger] mates[i as int].order@.take(k),
    ensures
        exists|rest: Seq<(String, u32)>|
            lines(mates, mates.len()) == #[trigger] (lines(mates, i) + part + rest),
{
    let k = choose|k: int|
        0 <= k <= mates[i as int].order@.len() && part == #[trigger] mates[i as int].order@.take(k);
    let rest = mates[i as int].order@.skip(k);
    assert(lines(mates, i) + part + rest =~= lines(mates, i + 1));
    lemma_lines_grow(mates, i + 1, mates.len());
    let more = choose|more: Seq<(String, u32)>|
        lines(mates, mates.len()) == #[trigger] (lines(mates, i + 1) + more);
    assert(lines(mates, i) + part + (rest + more) =~= lines(mates, mates.len()));
}

proof fn lemma_lines_grow(mates: Seq<Supplies>, i: nat, n: nat)
    requires
        i <= n <= mates.len(),
    ensures
        exists|more: Seq<(String, u32)>| lines(mates, n) == #[trigger] (lines(mates, i) + more),
    decreases n - i,
{
    if i == n {
        assert(lines(mates, n) =~= lines(mates, i) + Seq::<(String, u32)>::empty());
    } else {
        lemma_lines_grow(mates, i, (n - 1) as nat);
        let more = choose|more: Seq<(String, u32)>|
            lines(mates, (n - 1) as nat) == #[trigger] (lines(mates, i) + more);
        assert(lines(mates, i) + (more + mates[n - 1].order@) =~= lines(mates, n));
    }
}

/// A sum with somebody's name to it.
#[derive(Clone, Debug)]
pub struct Stake {
    pub name: String,
    pub amount: u32,
    /// Where it came in the row it was taken from.
    pub at: usize,
}

impl Ranked for Stake {
    open spec fn before(self, other: Stake) -> bool {
        self.amount > other.amount || (self.amount == other.amount && precedes(
            self.name@,
            other.name@,
        ))
    }

    fn goes_before(&self, other: &Stake) -> (r: bool) {
        self.amount > other.amount || (self.amount == other.amount && stands_first(
            self.name.as_str(),
            other.name.as_str(),
        ))
    }
}

/// What the first line for `item` among the first `n` from `i` on asks for.
pub open spec fn first_line(order: Seq<(String, u32)>, item: Seq<char>, i: int) -> Option<u32>
    decreases order.len() - i,
{
    if i >= order.len() {
        None
    } else if order[i].0@ == item {
        Some(order[i].1)
    } else {
        first_line(order, item, i + 1)
    }
}

/// What the first `n` members ask for of one thing, those that ask for any.
pub open spec fn asked(mates: Seq<Supplies>, item: Seq<char>, n: nat) -> Seq<Stake>
    decreases n,
{
    if n == 0 {
        seq![]
    } else {
        let rest = asked(mates, item, (n - 1) as nat);
        let line = first_line(mates[n - 1].order@, item, 0);
        if line is Some && line->0 > 0 {
            rest.push(
                Stake { name: mates[n - 1].name, amount: line->0, at: rest.len() as usize },
            )
        } else {
            rest
        }
    }
}

/// What some stakes come to.
pub open spec fn sum_of(s: Seq<Stake>) -> int
    decreases s.len(),
{
    if s.len() == 0 {
        0
    } else {
        sum_of(s.drop_last()) + s.last().amount
    }
}

/// What some numbers come to.
pub open spec fn added(s: Seq<u32>) -> int
    decreases s.len(),
{
    if s.len() == 0 {
        0
    } else {
        added(s.drop_last()) + s.last()
    }
}

/// What each would get of `brought` where `wanted` are asked for, in
/// proportion and rounded down.
pub open spec fn shares(who: Seq<Stake>, brought: int, wanted: int) -> Seq<u32> {
    who.map_values(|s: Stake| (s.amount * brought / wanted) as u32)
}

/// What each has once `left` more have been given out, each of `line` in turn
/// being filled up as far as it goes.
pub open spec fn poured(given: Seq<u32>, who: Seq<Stake>, line: Seq<Stake>, left: int) -> Seq<u32>
    decreases line.len(),
{
    if line.len() == 0 {
        given
    } else {
        let i = line[0].at as int;
        let room = who[i].amount - given[i];
        let give = if room < left {
            room
        } else {
            left
        };
        poured(given.update(i, (given[i] + give) as u32), who, line.drop_first(), left - give)
    }
}

/// The first `n` of those who are given something, with what they get.
pub open spec fn handed(who: Seq<Stake>, given: Seq<u32>, n: nat) -> Seq<(String, u32)>
    decreases n,
{
    if n == 0 {
        seq![]
    } else {
        let rest = handed(who, given, (n - 1) as nat);
        if given[n - 1] > 0 {
            rest.push((who[n - 1].name, given[n - 1]))
        } else {
            rest
        }
    }
}

/// How many each of those who ask is given: what it asks for where there is
/// enough, and else its share, with what the shares leave over going to the
/// largest orders.
pub open spec fn dealt(who: Seq<Stake>, brought: u32) -> Seq<u32> {
    let wanted = sum_of(who);
    if brought >= wanted {
        who.map_values(|s: Stake| s.amount)
    } else {
        let down = shares(who, brought as int, wanted);
        poured(down, who, arranged(who), brought - added(down))
    }
}

proof fn lemma_added_update(s: Seq<u32>, i: int, v: u32)
    requires
        0 <= i < s.len(),
    ensures
        added(s.update(i, v)) == added(s) - s[i] + v,
    decreases s.len(),
{
    if i == s.len() - 1 {
        assert(s.update(i, v).drop_last() =~= s.drop_last());
    } else {
        lemma_added_update(s.drop_last(), i, v);
        assert(s.update(i, v).drop_last() =~= s.drop_last().update(i, v));
    }
}

/// Shares rounded down come to no more than there is, and none is more than
/// was asked for.
proof fn lemma_shares(who: Seq<Stake>, brought: int, wanted: int)
    requires
        0 <= brought < wanted,
    ensures
        added(shares(who, brought, wanted)) * wanted <= sum_of(who) * brought,
        forall|i: int|
            0 <= i < who.len() ==> (#[trigger] shares(who, brought, wanted)[i]) <= who[i].amount
                && shares(who, brought, wanted)[i] == who[i].amount * brought / wanted,
        added(shares(who, brought, wanted)) >= 0,
    decreases who.len(),
{
    let d = shares(who, brought, wanted);
    if who.len() > 0 {
        lemma_shares(who.drop_last(), brought, wanted);
        assert(d.drop_last() =~= shares(who.drop_last(), brought, wanted));
        let a = who.last().amount as int;
        let q = a * brought / wanted;
        vstd::arithmetic::div_mod::lemma_fundamental_div_mod(a * brought, wanted);
        assert(0 <= q <= a) by (nonlinear_arith)
            requires
                q == a * brought / wanted,
                0 <= brought < wanted,
                a >= 0,
        ;
        assert(q * wanted <= a * brought) by (nonlinear_arith)
            requires
                a * brought == wanted * q + (a * brought) % wanted,
                wanted > 0,
        ;
        assert((added(d.drop_last()) + q) * wanted == added(d.drop_last()) * wanted + q * wanted)
            by (nonlinear_arith);
        assert((sum_of(who.drop_last()) + a) * brought == sum_of(who.drop_last()) * brought + a
            * brought) by (nonlinear_arith);
        assert forall|i: int| 0 <= i < who.len() implies (#[trigger] d[i]) <= who[i].amount && d[i]
            == who[i].amount * brought / wanted by {
            if i < who.len() - 1 {
                assert(d[i] == d.drop_last()[i]);
            }
        }
    } else {
        assert(0 * wanted <= 0 * brought);
    }
}

fn line_for(order: &Vec<(String, u32)>, item: &str) -> (r: Option<u32>)
    ensures
        r == first_line(order@, item@, 0),
{
    let mut i: usize = 0;
    while i < order.len()
        invariant
            i <= order.len(),
            first_line(order@, item@, 0) == first_line(order@, item@, i as int),
        decreases order.len() - i,
    {
        if same(order[i].0.as_str(), item) {
            return Some(order[i].1);
        }
        i = i + 1;
    }
    None
}

proof fn lemma_sum_of_prefix(s: Seq<Stake>, n: int)
    requires
        0 <= n <= s.len(),
    ensures
        0 <= sum_of(s.take(n)) <= sum_of(s),
    decreases s.len(),
{
    if n == s.len() {
        assert(s.take(n) =~= s);
        if n > 0 {
            lemma_sum_of_prefix(s.drop_last(), n - 1);
        }
    } else {
        lemma_sum_of_prefix(s.drop_last(), n);
        assert(s.drop_last().take(n) =~= s.take(n));
    }
}

fn gather_asked(mates: &[Supplies], item: &str) -> (r: Vec<Stake>)
    ensures
        r@ == asked(mates@, item@, mates@.len()),
{
    let mut r: Vec<Stake> = Vec::new();
    let mut i: usize = 0;
    while i < mates.len()
        invariant
            i <= mates.len(),
            r@ == asked(mates@, item@, i as nat),
        decreases mates.len() - i,
    {
        if let Some(c) = line_for(&mates[i].order, item) {
            if c > 0 {
                let at: usize = r.len();
                r.push(Stake { name: mates[i].name.clone(), amount: c, at });
            }
        }
        i = i + 1;
    }
    r
}

/// The stakes of a row know where they stand in it.
pub open spec fn numbered(s: Seq<Stake>) -> bool {
    forall|i: int| 0 <= i < s.len() ==> (#[trigger] s[i]).at == i
}

/// Those who ask are numbered in the order they ask in, and ask for something.
pub proof fn lemma_asked(mates: Seq<Supplies>, item: Seq<char>, n: nat)
    requires
        n <= mates.len() <= usize::MAX,
    ensures
        numbered(asked(mates, item, n)),
        asked(mates, item, n).len() <= n,
        forall|i: int|
            0 <= i < asked(mates, item, n).len() ==> (#[trigger] asked(mates, item, n)[i]).amount
                > 0,
    decreases n,
{
    if n > 0 {
        lemma_asked(mates, item, (n - 1) as nat);
    }
}

/// Pouring hands out exactly what there is, fills nobody beyond what it asked
/// for and takes nothing back.
proof fn lemma_poured(given: Seq<u32>, who: Seq<Stake>, line: Seq<Stake>, left: int, total: int)
    requires
        given.len() == who.len(),
        left >= 0,
        added(given) + left == total,
        total <= sum_of(who),
        forall|i: int| 0 <= i < who.len() ==> (#[trigger] given[i]) <= who[i].amount,
        forall|k: int| 0 <= k < line.len() ==> (#[trigger] line[k]).at < who.len(),
        left > 0 ==> forall|i: int|
            0 <= i < who.len() && !in_line(line, i) ==> (#[trigger] given[i]) == who[i].amount,
    ensures
        poured(given, who, line, left).len() == who.len(),
        added(poured(given, who, line, left)) == total,
        forall|i: int|
            0 <= i < who.len() ==> given[i] <= (#[trigger] poured(given, who, line, left)[i])
                <= who[i].amount,
    decreases line.len(),
{
    if line.len() == 0 {
        if left > 0 {
            assert forall|i: int| 0 <= i < who.len() implies (#[trigger] given[i])
                == who[i].amount by {
                assert(!in_line(line, i));
            }
            lemma_added_is_sum(given, who);
        }
    } else {
        let i = line[0].at as int;
        let room = who[i].amount - given[i];
        let give = if room < left {
            room
        } else {
            left
        };
        let next = given.update(i, (given[i] + give) as u32);
        lemma_added_update(given, i, (given[i] + give) as u32);
        if left - give > 0 {
            assert forall|j: int|
                0 <= j < who.len() && !in_line(line.drop_first(), j) implies (#[trigger] next[j])
                == who[j].amount by {
                if j != i {
                    if in_line(line, j) {
                        let k = choose|k: int| 0 <= k < line.len() && (#[trigger] line[k]).at == j;
                        assert(line.drop_first()[k - 1].at == j);
                    }
                    assert(given[j] == who[j].amount);
                }
            }
        }
        assert forall|k: int| 0 <= k < line.drop_first().len() implies (
        #[trigger] line.drop_first()[k]).at < who.len() by {
            assert(line[k + 1].at < who.len());
        }
        lemma_poured(next, who, line.drop_first(), left - give, total);
        assert forall|j: int| 0 <= j < who.len() implies given[j] <= (#[trigger] poured(
            given,
            who,
            line,
            left,
        )[j]) <= who[j].amount by {
            assert(next[j] >= given[j]);
        }
    }
}

pub open spec fn in_line(line: Seq<Stake>, i: int) -> bool {
    exists|k: int| 0 <= k < line.len() && (#[trigger] line[k]).at == i
}

proof fn lemma_added_is_sum(given: Seq<u32>, who: Seq<Stake>)
    requires
        given.len() == who.len(),
        forall|i: int| 0 <= i < who.len() ==> (#[trigger] given[i]) == who[i].amount,
    ensures
        added(given) == sum_of(who),
    decreases who.len(),
{
    if who.len() > 0 {
        assert forall|i: int| 0 <= i < who.drop_last().len() implies (
        #[trigger] given.drop_last()[i]) == who.drop_last()[i].amount by {
            assert(given[i] == who[i].amount);
        }
        lemma_added_is_sum(given.drop_last(), who.drop_last());
    }
}

proof fn lemma_line_holds_all(who: Seq<Stake>)
    requires
        numbered(who),
    ensures
        forall|i: int| 0 <= i < who.len() ==> in_line(arranged(who), i),
        forall|k: int| 0 <= k < arranged(who).len() ==> (#[trigger] arranged(who)[k]).at < who.len(),
{
    crate::order::lemma_arranged_keeps(who);
    let line = arranged(who);
    assert forall|i: int| 0 <= i < who.len() implies in_line(line, i) by {
        lemma_same_things(line, who, i);
        let k = choose|k: int| 0 <= k < line.len() && line[k] == who[i];
        assert(line[k].at == i);
    }
    assert forall|k: int| 0 <= k < line.len() implies (#[trigger] line[k]).at < who.len() by {
        lemma_same_things(who, line, k);
    }
}

/// What is dealt comes to what was brought or to what was asked for, whichever
/// is less; nobody is given more than it asked for, nor less than its share.
pub proof fn lemma_dealt(who: Seq<Stake>, brought: u32)
    requires
        numbered(who),
    ensures
        dealt(who, brought).len() == who.len(),
        added(dealt(who, brought)) == if brought < sum_of(who) {
            brought as int
        } else {
            sum_of(who)
        },
        forall|i: int|
            0 <= i < who.len() ==> (#[trigger] dealt(who, brought)[i]) <= who[i].amount,
        brought < sum_of(who) ==> forall|i: int|
            0 <= i < who.len() ==> who[i].amount * brought / sum_of(who) <= (#[trigger] dealt(
                who,
                brought,
            )[i]),
{
    let wanted = sum_of(who);
    if brought >= wanted {
        lemma_added_is_sum(dealt(who, brought), who);
    } else {
        let down = shares(who, brought as int, wanted);
        lemma_shares(who, brought as int, wanted);
        assert(added(down) <= brought) by (nonlinear_arith)
            requires
                added(down) * wanted <= wanted * brought,
                wanted > 0,
        ;
        lemma_line_holds_all(who);
        lemma_poured(down, who, arranged(who), brought - added(down), brought as int);
        assert forall|i: int| 0 <= i < who.len() implies who[i].amount * brought / wanted <= (
        #[trigger] dealt(who, brought)[i]) by {
            assert(down[i] <= dealt(who, brought)[i]);
        }
    }
}

/// How to split what the quartermaster actually brought home.
///
/// A run does not always fill every order, so what came back is shared in
/// proportion to what each character asked for, and the remainder goes to the
/// largest order. Nobody is given more than they asked for.
pub fn hand_out(mates: &[Supplies], item: &str, brought: u32) -> (r: Vec<(String, u32)>)
    requires
        sum_of(asked(mates@, item@, mates@.len())) <= u32::MAX,
    ensures
        r@ == handed(
            asked(mates@, item@, mates@.len()),
            dealt(asked(mates@, item@, mates@.len()), brought),
            asked(mates@, item@, mates@.len()).len(),
        ),
{
    let who = gather_asked(mates, item);
    let members: usize = mates.len();
    proof {
        assert(members == mates@.len());
        lemma_asked(mates@, item@, mates@.len());
        lemma_dealt(who@, brought);
        assert(who@.take(who@.len() as int) =~= who@);
    }
    let mut wanted: u32 = 0;
    let mut i: usize = 0;
    while i < who.len()
        invariant
            i <= who.len(),
            sum_of(who@) <= u32::MAX,
            wanted == sum_of(who@.take(i as int)),
        decreases who.len() - i,
    {
        proof {
            lemma_sum_of_prefix(who@, i + 1);
            assert(who@.take(i + 1).drop_last() =~= who@.take(i as int));
        }
        wanted = wanted + who[i].amount;
        i = i + 1;
    }
    let given = deal(&who, brought, wanted);
    let mut out: Vec<(String, u32)> = Vec::new();
    i = 0;
    while i < who.len()
        invariant
            i <= who.len(),
            given.len() == who.len(),
            out@ == handed(who@, given@, i as nat),
        decreases who.len() - i,
    {
        if given[i] > 0 {
            out.push((who[i].name.clone(), given[i]));
        }
        i = i + 1;
    }
    out
}

fn deal(who: &Vec<Stake>, brought: u32, wanted: u32) -> (r: Vec<u32>)
    requires
        numbered(who@),
        wanted == sum_of(who@),
    ensures
        r@ == dealt(who@, brought),
        r.len() == who.len(),
{
    let mut given: Vec<u32> = Vec::new();
    let mut i: usize = 0;
    if brought >= wanted {
        while i < who.len()
            invariant
                i <= who.len(),
                given.len() == i,
                forall|k: int| 0 <= k < i ==> (#[trigger] given@[k]) == who@[k].amount,
            decreases who.len() - i,
        {
            given.push(who[i].amount);
            i = i + 1;
        }
        assert(given@ =~= dealt(who@, brought));
        return given;
    }
    let ghost down = shares(who@, brought as int, wanted as int);
    proof {
        lemma_shares(who@, brought as int, wanted as int);
    }
    let mut handed_down: u32 = 0;
    assert(added(down.take(0)) == 0);
    while i < who.len()
        invariant
            i <= who.len(),
            0 <= brought < wanted,
            wanted == sum_of(who@),
            down == shares(who@, brought as int, wanted as int),
            added(down) * wanted <= sum_of(who@) * brought,
            forall|k: int|
                0 <= k < who@.len() ==> (#[trigger] down[k]) <= who@[k].amount && down[k]
                    == who@[k].amount * brought / (wanted as int),
            given@ == down.take(i as int),
            handed_down == added(down.take(i as int)),
        decreases who.len() - i,
    {
        let a: u64 = who[i].amount as u64;
        assert(a * brought <= 0xffff_ffff * 0xffff_ffff) by (nonlinear_arith)
            requires
                0 <= a <= 0xffff_ffff,
                0 <= brought <= 0xffff_ffff,
        ;
        let share: u64 = a * brought as u64 / wanted as u64;
        assert(down[i as int] == share);
        proof {
            lemma_added_prefix(down, i + 1);
            assert(down.take(i + 1).drop_last() =~= down.take(i as int));
            assert(added(down) <= brought) by (nonlinear_arith)
                requires
                    added(down) * wanted <= wanted * brought,
                    wanted > 0,
            ;
        }
        given.push(share as u32);
        assert(given@ =~= down.take(i + 1));
        handed_down = handed_down + share as u32;
        i = i + 1;
    }
    assert(down.take(i as int) =~= down);
    assert(added(down) <= brought) by (nonlinear_arith)
        requires
            added(down) * wanted <= wanted * brought,
            wanted > 0,
    ;
    // Rounding down leaves a few; give them to the biggest order.
    let mut left: u32 = brought - handed_down;
    let mut copies: Vec<Stake> = Vec::new();
    i = 0;
    while i < who.len()
        invariant
            i <= who.len(),
            copies@ == who@.take(i as int),
        decreases who.len() - i,
    {
        copies.push(
            Stake { name: who[i].name.clone(), amount: who[i].amount, at: who[i].at },
        );
        assert(copies@ =~= who@.take(i + 1));
        i = i + 1;
    }
    assert(copies@ =~= who@);
    let line = sort(copies);
    proof {
        lemma_line_holds_all(who@);
        assert(line@.skip(0) =~= line@);
    }
    i = 0;
    while i < line.len()
        invariant
            i <= line.len(),
            given.len() == who.len(),
            forall|k: int| 0 <= k < line.len() ==> (#[trigger] line@[k]).at < who.len(),
            forall|k: int| 0 <= k < who.len() ==> (#[trigger] given@[k]) <= who@[k].amount,
            poured(given@, who@, line@.skip(i as int), left as int) == dealt(who@, brought),
        decreases line.len() - i,
    {
        let at: usize = line[i].at;
        let room: u32 = who[at].amount - given[at];
        let give: u32 = if room < left {
            room
        } else {
            left
        };
        let now: u32 = given[at] + give;
        proof {
            assert(line@.skip(i as int)[0] == line@[i as int]);
            assert(line@.skip(i as int).drop_first() =~= line@.skip(i + 1));
        }
        given.set(at, now);
        left = left - give;
        i = i + 1;
    }
    given
}

proof fn lemma_added_prefix(s: Seq<u32>, n: int)
    requires
        0 <= n <= s.len(),
    ensures
        0 <= added(s.take(n)) <= added(s),
    decreases s.len(),
{
    if n == s.len() {
        assert(s.take(n) =~= s);
        if n > 0 {
            lemma_added_prefix(s.drop_last(), n - 1);
        }
    } else {
        lemma_added_prefix(s.drop_last(), n);
        assert(s.drop_last().take(n) =~= s.take(n));
    }
}

/// One character handing money to another.
#[derive(Clone, Debug, PartialEq)]
pub struct Transfer {
    pub from: String,
    pub to: String,
    pub amount: u32,
}

/// What the first `n` members have over their own bills, those that have any.
pub open spec fn givers(mates: Seq<Supplies>, n: nat) -> Seq<Stake>
    decreases n,
{
    if n == 0 {
        seq![]
    } else {
        let rest = givers(mates, (n - 1) as nat);
        let m = mates[n - 1];
        if m.purse > m.bill {
            rest.push(
                Stake { name: m.name, amount: (m.purse - m.bill) as u32, at: (n - 1) as usize },
            )
        } else {
            rest
        }
    }
}

/// What the first `n` members lack of their own bills, those that lack any.
pub open spec fn takers(mates: Seq<Supplies>, n: nat) -> Seq<Stake>
    decreases n,
{
    if n == 0 {
        seq![]
    } else {
        let rest = takers(mates, (n - 1) as nat);
        let m = mates[n - 1];
        if m.bill > m.purse {
            rest.push(
                Stake { name: m.name, amount: (m.bill - m.purse) as u32, at: (n - 1) as usize },
            )
        } else {
            rest
        }
    }
}

/// A row of stakes with some taken off the first.
pub open spec fn less(s: Seq<Stake>, off: int) -> Seq<Stake> {
    s.update(0, Stake { amount: (s[0].amount - off) as u32, ..s[0] })
}

/// Who hands what to whom: the first that has something left gives the first
/// that lacks something what it can.
pub open spec fn covered(g: Seq<Stake>, t: Seq<Stake>) -> Seq<Transfer>
    decreases
            g.len() + t.len(),
            if g.len() == 0 || t.len() == 0 {
                0
            } else {
                g[0].amount + t[0].amount
            },
{
    if g.len() == 0 || t.len() == 0 {
        seq![]
    } else if t[0].amount == 0 {
        covered(g, t.drop_first())
    } else if g[0].amount == 0 {
        covered(g.drop_first(), t)
    } else {
        let amount = if g[0].amount < t[0].amount {
            g[0].amount
        } else {
            t[0].amount
        };
        seq![Transfer { from: g[0].name, to: t[0].name, amount }] + covered(
            less(g, amount as int),
            less(t, amount as int),
        )
    }
}

fn gather_givers(mates: &[Supplies]) -> (r: Vec<Stake>)
    ensures
        r@ == givers(mates@, mates@.len()),
{
    let mut r: Vec<Stake> = Vec::new();
    let mut i: usize = 0;
    while i < mates.len()
        invariant
            i <= mates.len(),
            r@ == givers(mates@, i as nat),
        decreases mates.len() - i,
    {
        let m = &mates[i];
        if m.purse > m.bill {
            r.push(Stake { name: m.name.clone(), amount: m.purse - m.bill, at: i });
        }
        i = i + 1;
    }
    r
}

fn gather_takers(mates: &[Supplies]) -> (r: Vec<Stake>)
    ensures
        r@ == takers(mates@, mates@.len()),
{
    let mut r: Vec<Stake> = Vec::new();
    let mut i: usize = 0;
    while i < mates.len()
        invariant
            i <= mates.len(),
            r@ == takers(mates@, i as nat),
        decreases mates.len() - i,
    {
        let m = &mates[i];
        if m.bill > m.purse {
            r.push(Stake { name: m.name.clone(), amount: m.bill - m.purse, at: i });
        }
        i = i + 1;
    }
    r
}

/// Who should hand money to whom so that everyone can pay their own bill.
///
/// The richest surplus covers the largest shortfall first, ties by name so that
/// every session in the party works out the same list. Nobody is asked to give
/// away money it needs itself, and a shortfall nobody can cover is simply left:
/// the character buys what it can afford.
pub fn share_money(mates: &[Supplies]) -> (r: Vec<Transfer>)
    ensures
        r@ == covered(
            arranged(givers(mates@, mates@.len())),
            arranged(takers(mates@, mates@.len())),
        ),
{
    let mut give = sort(gather_givers(mates));
    let mut take = sort(gather_takers(mates));
    let mut moves: Vec<Transfer> = Vec::new();
    let mut g: usize = 0;
    let mut t: usize = 0;
    let ghost all = covered(give@, take@);
    assert(give@.skip(0) =~= give@);
    assert(take@.skip(0) =~= take@);
    while t < take.len() && g < give.len()
        invariant
            g <= give.len(),
            t <= take.len(),
            all =~= moves@ + covered(give@.skip(g as int), take@.skip(t as int)),
        decreases
                (give.len() - g) + (take.len() - t),
                if g < give.len() && t < take.len() {
                    give@[g as int].amount + take@[t as int].amount
                } else {
                    0
                },
    {
        let ghost gs = give@.skip(g as int);
        let ghost ts = take@.skip(t as int);
        assert(gs.drop_first() =~= give@.skip(g + 1));
        assert(ts.drop_first() =~= take@.skip(t + 1));
        let spare: u32 = give[g].amount;
        let need: u32 = take[t].amount;
        if need == 0 {
            t = t + 1;
        } else if spare == 0 {
            g = g + 1;
        } else {
            let amount: u32 = if spare < need {
                spare
            } else {
                need
            };
            let ghost so_far = moves@;
            moves.push(
                Transfer { from: give[g].name.clone(), to: take[t].name.clone(), amount },
            );
            let from = give[g].name.clone();
            let from_at: usize = give[g].at;
            give.set(g, Stake { name: from, amount: spare - amount, at: from_at });
            let to = take[t].name.clone();
            let to_at: usize = take[t].at;
            take.set(t, Stake { name: to, amount: need - amount, at: to_at });
            assert(give@.skip(g as int) =~= less(gs, amount as int));
            assert(take@.skip(t as int) =~= less(ts, amount as int));
            assert(moves@ =~= so_far + seq![moves@.last()]);
        }
    }
    assert(all =~= moves@);
    moves
}

} // verus!
