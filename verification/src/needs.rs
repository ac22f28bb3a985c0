//! What the character is short of.

use crate::config::Growth;
use crate::needs_laws::{
    ammo_is_right, comps_are_right, law_everything_short_is_needed, lines_are_right, rounds_leaving,
};
use crate::text::{
    blank, cat2, contains, count, counted, is_blank, lower_case, same, to_lower, trim, trimmed,
    within,
};
use crate::things::{is_ammo, Thing, MISSILE_AMMO};
use crate::wares::{at_least_one, spec_worth_stocking, worth_stocking, Need, NeedKind};
use vstd::prelude::*;
use vstd::string::*;

verus! {

/// A stack on its way out of the pack: its weenie class, its name in small
/// letters, how many it holds, and whether it is ammunition.
#[derive(Clone, Debug)]
pub struct Gone {
    pub wcid: u32,
    pub folded: String,
    pub count: u32,
    pub ammo: bool,
}

/// What is on its way out of the pack, counted: how many of each kind, so that
/// the rest of a kind can still be short.
#[derive(Clone, Debug)]
pub struct Leaving {
    pub stacks: Vec<Gone>,
}

/// What a stack on its way out is.
pub struct GoneSeen {
    pub wcid: u32,
    pub folded: Seq<char>,
    pub count: u32,
    pub ammo: bool,
}

pub open spec fn seen_gone(s: Seq<Gone>) -> Seq<GoneSeen> {
    s.map_values(
        |g: Gone| GoneSeen { wcid: g.wcid, folded: g.folded@, count: g.count, ammo: g.ammo },
    )
}

/// Those of the first `n` things that are on their way out.
pub open spec fn gone_of(things: Seq<Thing>, n: nat) -> Seq<GoneSeen>
    decreases n,
{
    if n == 0 {
        seq![]
    } else {
        let rest = gone_of(things, (n - 1) as nat);
        let t = things[n - 1];
        if t.leaving {
            rest.push(
                GoneSeen {
                    wcid: t.wcid,
                    folded: lower_case(t.name@),
                    count: at_least_one(t.stack),
                    ammo: is_ammo(t),
                },
            )
        } else {
            rest
        }
    }
}

/// How many the first `n` stacks hold.
pub open spec fn all_gone(s: Seq<Gone>, n: nat) -> int
    decreases n,
{
    if n == 0 {
        0
    } else {
        all_gone(s, (n - 1) as nat) + s[n - 1].count
    }
}

/// How many the first `n` stacks hold, of those of a weenie class.
pub open spec fn gone_class(s: Seq<Gone>, wcid: u32, n: nat) -> int
    decreases n,
{
    if n == 0 {
        0
    } else {
        gone_class(s, wcid, (n - 1) as nat) + if s[n - 1].wcid == wcid {
            s[n - 1].count as int
        } else {
            0
        }
    }
}

/// How many the first `n` stacks hold, of those whose name holds some words.
pub open spec fn gone_named(s: Seq<Gone>, want: Seq<char>, n: nat) -> int
    decreases n,
{
    if n == 0 {
        0
    } else {
        gone_named(s, want, (n - 1) as nat) + if within(s[n - 1].folded@, want) {
            s[n - 1].count as int
        } else {
            0
        }
    }
}

/// How many the first `n` stacks hold, of those that are ammunition.
pub open spec fn gone_ammo(s: Seq<Gone>, n: nat) -> int
    decreases n,
{
    if n == 0 {
        0
    } else {
        gone_ammo(s, (n - 1) as nat) + if s[n - 1].ammo {
            s[n - 1].count as int
        } else {
            0
        }
    }
}

proof fn lemma_gone(s: Seq<Gone>, wcid: u32, want: Seq<char>, i: nat, n: nat)
    requires
        i <= n,
    ensures
        0 <= gone_class(s, wcid, i) <= all_gone(s, i) <= all_gone(s, n),
        0 <= gone_named(s, want, i) <= all_gone(s, i),
        0 <= gone_ammo(s, i) <= all_gone(s, i),
    decreases n,
{
    if i < n {
        lemma_gone(s, wcid, want, i, (n - 1) as nat);
    } else if n > 0 {
        lemma_gone(s, wcid, want, (n - 1) as nat, (n - 1) as nat);
    }
}

impl Leaving {
    /// What is leaving can be counted.
    pub open spec fn fits(self) -> bool {
        all_gone(self.stacks@, self.stacks@.len()) <= u32::MAX
    }

    pub open spec fn spec_of(self, wcid: u32) -> int {
        gone_class(self.stacks@, wcid, self.stacks@.len())
    }

    pub open spec fn spec_ammo(self) -> int {
        gone_ammo(self.stacks@, self.stacks@.len())
    }

    /// How many of this weenie class are leaving.
    pub fn of(&self, wcid: u32) -> (r: u32)
        requires
            self.fits(),
        ensures
            r == self.spec_of(wcid),
    {
        let mut sum: u32 = 0;
        let mut i: usize = 0;
        while i < self.stacks.len()
            invariant
                i <= self.stacks.len(),
                self.fits(),
                sum == gone_class(self.stacks@, wcid, i as nat),
            decreases self.stacks.len() - i,
        {
            proof {
                lemma_gone(self.stacks@, wcid, seq![], (i + 1) as nat, self.stacks@.len());
            }
            if self.stacks[i].wcid == wcid {
                sum = sum + self.stacks[i].count;
            }
            i = i + 1;
        }
        sum
    }

    /// How many of what some words in small letters name are leaving.
    pub fn named_folded(&self, want: &str) -> (r: u32)
        requires
            self.fits(),
        ensures
            r == if want@.len() == 0 {
                0
            } else {
                gone_named(self.stacks@, want@, self.stacks@.len())
            },
    {
        if want.is_empty() {
            return 0;
        }
        let mut sum: u32 = 0;
        let mut i: usize = 0;
        while i < self.stacks.len()
            invariant
                i <= self.stacks.len(),
                self.fits(),
                sum == gone_named(self.stacks@, want@, i as nat),
            decreases self.stacks.len() - i,
        {
            proof {
                lemma_gone(self.stacks@, 0, want@, (i + 1) as nat, self.stacks@.len());
            }
            if contains(self.stacks[i].folded.as_str(), want) {
                sum = sum + self.stacks[i].count;
            }
            i = i + 1;
        }
        sum
    }

    pub open spec fn spec_named(self, line: Seq<char>) -> int {
        let want = lower_case(trimmed(line));
        if want.len() == 0 {
            0
        } else {
            gone_named(self.stacks@, want, self.stacks@.len())
        }
    }

    /// How many of what a buy-list line names are leaving.
    pub fn named(&self, line: &str) -> (r: u32)
        requires
            self.fits(),
        ensures
            r == self.spec_named(line@),
    {
        let want = to_lower(trim(line));
        self.named_folded(want.as_str())
    }

    /// How many rounds of ammunition are leaving.
    pub fn ammo(&self) -> (r: u32)
        requires
            self.fits(),
        ensures
            r == self.spec_ammo(),
    {
        let mut sum: u32 = 0;
        let mut i: usize = 0;
        while i < self.stacks.len()
            invariant
                i <= self.stacks.len(),
                self.fits(),
                sum == gone_ammo(self.stacks@, i as nat),
            decreases self.stacks.len() - i,
        {
            proof {
                lemma_gone(self.stacks@, 0, seq![], (i + 1) as nat, self.stacks@.len());
            }
            if self.stacks[i].ammo {
                sum = sum + self.stacks[i].count;
            }
            i = i + 1;
        }
        sum
    }
}

/// What is on its way out of the pack: every carried thing the profile said to
/// sell and the server will let go.
pub fn leaving_of(things: &[Thing]) -> (r: Leaving)
    ensures
        seen_gone(r.stacks@) == gone_of(things@, things@.len()),
{
    let mut stacks: Vec<Gone> = Vec::new();
    let mut i: usize = 0;
    assert(seen_gone(stacks@) =~= gone_of(things@, 0));
    while i < things.len()
        invariant
            i <= things.len(),
            seen_gone(stacks@) == gone_of(things@, i as nat),
        decreases things.len() - i,
    {
        let t = &things[i];
        if t.leaving {
            let ghost so_far = stacks@;
            let n: u32 = if t.stack == 0 {
                1
            } else {
                t.stack
            };
            stacks.push(
                Gone {
                    wcid: t.wcid,
                    folded: to_lower(t.name.as_str()),
                    count: n,
                    ammo: t.valid_locations & MISSILE_AMMO != 0,
                },
            );
            assert(seen_gone(stacks@) =~= seen_gone(so_far).push(
                GoneSeen {
                    wcid: t.wcid,
                    folded: lower_case(t.name@),
                    count: at_least_one(t.stack),
                    ammo: is_ammo(*t),
                },
            ));
        }
        i = i + 1;
    }
    Leaving { stacks }
}

/// How many of the first `n` things there are, of those whose name in small
/// letters holds some words.
pub open spec fn carried_of(things: Seq<Thing>, want: Seq<char>, n: nat) -> int
    decreases n,
{
    if n == 0 {
        0
    } else {
        carried_of(things, want, (n - 1) as nat) + if within(
            lower_case(things[n - 1].name@),
            want,
        ) {
            at_least_one(things[n - 1].stack) as int
        } else {
            0
        }
    }
}

/// How many of the first `n` things there are.
pub open spec fn all_of(things: Seq<Thing>, n: nat) -> int
    decreases n,
{
    if n == 0 {
        0
    } else {
        all_of(things, (n - 1) as nat) + at_least_one(things[n - 1].stack)
    }
}

/// A stack with its name in small letters.
#[derive(Clone, Debug)]
pub struct Piled {
    pub folded: String,
    pub stack: u32,
}

/// How many of the first `n` stacks there are, of those whose name holds some
/// words.
pub open spec fn piled_of(piles: Seq<Piled>, want: Seq<char>, n: nat) -> int
    decreases n,
{
    if n == 0 {
        0
    } else {
        piled_of(piles, want, (n - 1) as nat) + if within(piles[n - 1].folded@, want) {
            at_least_one(piles[n - 1].stack) as int
        } else {
            0
        }
    }
}

/// How many the first `n` stacks hold.
pub open spec fn pile_size(piles: Seq<Piled>, n: nat) -> int
    decreases n,
{
    if n == 0 {
        0
    } else {
        pile_size(piles, (n - 1) as nat) + at_least_one(piles[n - 1].stack)
    }
}

proof fn lemma_piled(piles: Seq<Piled>, want: Seq<char>, i: nat, n: nat)
    requires
        i <= n,
    ensures
        0 <= piled_of(piles, want, i) <= piled_of(piles, want, n) <= pile_size(piles, n),
    decreases n,
{
    if i < n {
        lemma_piled(piles, want, i, (n - 1) as nat);
    } else if n > 0 {
        lemma_piled(piles, want, (n - 1) as nat, (n - 1) as nat);
    }
}

/// How many there are in the stacks whose name holds `want`, both in small
/// letters already.
pub fn carried_folded(piles: &[Piled], want: &str) -> (r: u32)
    requires
        pile_size(piles@, piles@.len()) <= u32::MAX,
    ensures
        r == piled_of(piles@, want@, piles@.len()),
{
    let mut sum: u32 = 0;
    let mut i: usize = 0;
    while i < piles.len()
        invariant
            i <= piles.len(),
            pile_size(piles@, piles@.len()) <= u32::MAX,
            sum == piled_of(piles@, want@, i as nat),
        decreases piles.len() - i,
    {
        proof {
            lemma_piled(piles@, want@, (i + 1) as nat, piles@.len());
        }
        if contains(piles[i].folded.as_str(), want) {
            sum = sum + (if piles[i].stack == 0 {
                1
            } else {
                piles[i].stack
            });
        }
        i = i + 1;
    }
    sum
}

/// The piles are the first `n` things with their names in small letters.
spec fn piles_up(piles: Seq<Piled>, things: Seq<Thing>, n: nat) -> bool {
    &&& piles.len() == n
    &&& forall|i: int|
        0 <= i < n ==> (#[trigger] piles[i]).folded@ == lower_case(things[i].name@)
            && piles[i].stack == things[i].stack
}

proof fn lemma_piles_up(piles: Seq<Piled>, things: Seq<Thing>, want: Seq<char>, n: nat)
    requires
        n <= things.len(),
        piles_up(piles, things, things.len()),
    ensures
        piled_of(piles, want, n) == carried_of(things, want, n),
        pile_size(piles, n) == all_of(things, n),
    decreases n,
{
    if n > 0 {
        lemma_piles_up(piles, things, want, (n - 1) as nat);
        assert(piles[n - 1].stack == things[n - 1].stack);
    }
}

/// How many of a named thing are carried: those whose name contains it, great
/// and small letters alike.
pub fn carried_named(things: &[Thing], name: &str) -> (r: u32)
    requires
        all_of(things@, things@.len()) <= u32::MAX,
    ensures
        r == carried_of(things@, lower_case(trimmed(name@)), things@.len()),
{
    let want = to_lower(trim(name));
    let mut piles: Vec<Piled> = Vec::new();
    let mut i: usize = 0;
    while i < things.len()
        invariant
            i <= things.len(),
            piles_up(piles@, things@, i as nat),
        decreases things.len() - i,
    {
        piles.push(Piled { folded: to_lower(things[i].name.as_str()), stack: things[i].stack });
        i = i + 1;
    }
    proof {
        lemma_piles_up(piles@, things@, want@, things@.len());
    }
    carried_folded(piles.as_slice(), want.as_str())
}

/// What is held as stock of a named thing: what is carried, less what is on its
/// way out.
pub fn stock(things: &[Thing], leaving: &Leaving, what: &str) -> (r: u32)
    requires
        all_of(things@, things@.len()) <= u32::MAX,
        leaving.fits(),
    ensures
        ({
            let have = carried_of(things@, lower_case(trimmed(what@)), things@.len());
            let gone = leaving.spec_named(what@);
            r == if have > gone {
                have - gone
            } else {
                0
            }
        }),
{
    let have: u32 = carried_named(things, what);
    let gone: u32 = leaving.named(what);
    held_as_stock(have, gone)
}

/// A line of the buy list that is short: what it names, how many are held and
/// how many kept, where it is to be bought, and whether it is low enough to go.
#[derive(Clone, Debug)]
pub struct Short {
    pub what: String,
    pub have: u32,
    pub keep: u32,
    pub from: Option<String>,
    pub urgent: bool,
}

/// The launcher in hand: the kind of ammunition it takes and what that is
/// called, how much is carried, and whether more can be made.
#[derive(Clone, Debug)]
pub struct AmmoLine {
    pub kind: u32,
    pub name: String,
    pub carried: u32,
    pub can_craft: bool,
}

/// A spell component: its weenie class if it has one, what it is called, how
/// many are kept and carried, whether enough of the world sells it, and whether
/// the rules would have it sold the moment it was bought.
#[derive(Clone, Debug)]
pub struct CompLine {
    pub wcid: Option<u32>,
    pub name: String,
    pub keep: u32,
    pub carried: u32,
    pub buyable: bool,
    pub bought_to_sell: bool,
}

/// What is counted to say what the character is short of.
pub struct Stores<'a> {
    pub shorts: &'a [Short],
    pub heals_with_kits: bool,
    pub ammo: Option<&'a AmmoLine>,
    /// It keeps tapers, has spells, has a wand to cast them with, and the
    /// components can be told apart.
    pub casts: bool,
    pub comps: &'a [CompLine],
}

/// There is a need for this name already.
pub open spec fn needs_name(needs: Seq<Need>, name: Seq<char>) -> bool {
    exists|i: int|
        0 <= i < needs.len() && (#[trigger] needs[i]).kind is Named && needs[i].kind->Named_0@
            == name
}

/// What the first `n` lines of the buy list come to.
pub open spec fn named_needs(shorts: Seq<Short>, kits: bool, n: nat) -> Seq<Need>
    decreases n,
{
    if n == 0 {
        seq![]
    } else {
        let rest = named_needs(shorts, kits, (n - 1) as nat);
        let s = shorts[n - 1];
        if blank(s.what@) || s.keep == 0 || !spec_worth_stocking(s.what@, kits) || s.have >= s.keep
            || needs_name(rest, s.what@) {
            rest
        } else {
            rest.push(
                Need {
                    name: s.what,
                    want: (s.keep - s.have) as u32,
                    have: s.have,
                    keep: s.keep,
                    urgent: s.urgent,
                    buyable: true,
                    from: s.from,
                    kind: NeedKind::Named(s.what),
                },
            )
        }
    }
}

pub open spec fn less(a: int, b: int) -> u32 {
    if a > b {
        (a - b) as u32
    } else {
        0
    }
}

/// What is held of something as stock: what is carried, less what is on its way
/// out.
pub fn held_as_stock(carried: u32, gone: u32) -> (r: u32)
    ensures
        r == less(carried as int, gone as int),
{
    if carried > gone {
        carried - gone
    } else {
        0
    }
}

/// What the launcher comes to.
pub open spec fn ammo_needs(ammo: Option<AmmoLine>, leaving: int, keep: u32) -> Seq<Need> {
    match ammo {
        None => seq![],
        Some(a) => {
            let have = less(a.carried as int, leaving);
            if have < keep {
                seq![
                    Need {
                        name: a.name,
                        want: (keep - have) as u32,
                        have,
                        keep,
                        urgent: have < keep / 4 && !a.can_craft,
                        buyable: true,
                        from: None,
                        kind: NeedKind::Ammo(a.kind),
                    },
                ]
            } else {
                seq![]
            }
        },
    }
}

/// What the first `n` components come to.
pub open spec fn comp_needs(comps: Seq<CompLine>, leaving: Leaving, n: nat) -> Seq<Need>
    decreases n,
{
    if n == 0 {
        seq![]
    } else {
        let rest = comp_needs(comps, leaving, (n - 1) as nat);
        let c = comps[n - 1];
        match c.wcid {
            None => rest,
            Some(wcid) => {
                let have = less(c.carried as int, leaving.spec_of(wcid));
                if have >= c.keep || c.bought_to_sell {
                    rest
                } else {
                    rest.push(
                        Need {
                            name: c.name,
                            want: (c.keep - have) as u32,
                            have,
                            keep: c.keep,
                            urgent: have < c.keep / 4 && c.buyable,
                            buyable: c.buyable,
                            from: None,
                            kind: NeedKind::Component(wcid),
                        },
                    )
                }
            },
        }
    }
}

/// What the character is short of.
pub open spec fn spec_needs(s: Stores, leaving: Leaving, cfg: Growth) -> Seq<Need> {
    let ammo = match s.ammo {
        Some(a) => Some(*a),
        None => None,
    };
    named_needs(s.shorts@, s.heals_with_kits, s.shorts@.len()) + ammo_needs(
        ammo,
        leaving.spec_ammo(),
        cfg.ammo_keep,
    ) + if s.casts {
        comp_needs(s.comps@, leaving, s.comps@.len())
    } else {
        seq![]
    }
}

fn does_need(needs: &Vec<Need>, name: &str) -> (r: bool)
    ensures
        r == needs_name(needs@, name@),
{
    let mut i: usize = 0;
    while i < needs.len()
        invariant
            i <= needs.len(),
            forall|k: int|
                0 <= k < i ==> !((#[trigger] needs@[k]).kind is Named && needs@[k].kind->Named_0@
                    == name@),
        decreases needs.len() - i,
    {
        if let NeedKind::Named(n) = &needs[i].kind {
            if same(n.as_str(), name) {
                return true;
            }
        }
        i = i + 1;
    }
    false
}

fn copy_from(from: &Option<String>) -> (r: Option<String>)
    ensures
        r == *from,
{
    match from {
        Some(s) => Some(s.clone()),
        None => None,
    }
}

/// What the character is short of: the buy list's lines first, then
/// ammunition for the launcher in hand, then the components its spells burn.
///
/// A line is short by what is held less what is on its way out. Being one short
/// is not a reason to walk to town: the line says how low it may get first, and
/// ammunition and components may get down to a quarter. A kind the rules would
/// tag to sell the moment it was bought is not bought.
pub fn grow_needs_with(s: &Stores, leaving: &Leaving, cfg: &Growth) -> (r: Vec<Need>)
    requires
        leaving.fits(),
    ensures
        r@ == spec_needs(*s, *leaving, *cfg),
        lines_are_right(s.shorts@, s.heals_with_kits, r@),
        ammo_is_right(
            match s.ammo {
                Some(a) => Some(*a),
                None => None,
            },
            rounds_leaving(*leaving),
            cfg.ammo_keep,
            r@,
        ),
        comps_are_right(s.casts, s.comps@, *leaving, r@),
{
    proof {
        law_everything_short_is_needed(*s, *leaving, *cfg, spec_needs(*s, *leaving, *cfg));
    }
    let mut needs: Vec<Need> = Vec::new();
    let mut i: usize = 0;
    while i < s.shorts.len()
        invariant
            i <= s.shorts.len(),
            needs@ == named_needs(s.shorts@, s.heals_with_kits, i as nat),
        decreases s.shorts.len() - i,
    {
        let line = &s.shorts[i];
        let what = line.what.as_str();
        if !is_blank(what) && line.keep != 0 && worth_stocking(what, s.heals_with_kits) && line.have
            < line.keep && !does_need(&needs, what) {
            needs.push(
                Need {
                    name: line.what.clone(),
                    want: line.keep - line.have,
                    have: line.have,
                    keep: line.keep,
                    urgent: line.urgent,
                    buyable: true,
                    from: copy_from(&line.from),
                    kind: NeedKind::Named(line.what.clone()),
                },
            );
        }
        i = i + 1;
    }
    let ghost named = needs@;
    let ghost ammo = match s.ammo {
        Some(a) => Some(*a),
        None => None,
    };
    let ghost some = ammo_needs(ammo, leaving.spec_ammo(), cfg.ammo_keep);
    if let Some(a) = s.ammo {
        let gone: u32 = leaving.ammo();
        let have: u32 = held_as_stock(a.carried, gone);
        if have < cfg.ammo_keep {
            needs.push(
                Need {
                    name: a.name.clone(),
                    want: cfg.ammo_keep - have,
                    have,
                    keep: cfg.ammo_keep,
                    urgent: have < cfg.ammo_keep / 4 && !a.can_craft,
                    buyable: true,
                    from: None,
                    kind: NeedKind::Ammo(a.kind),
                },
            );
        }
    }
    assert(needs@ =~= named + some);
    let ghost two = needs@;
    if !s.casts {
        assert(needs@ =~= two + Seq::<Need>::empty());
        return needs;
    }
    i = 0;
    assert(needs@ =~= two + comp_needs(s.comps@, *leaving, 0));
    while i < s.comps.len()
        invariant
            i <= s.comps.len(),
            leaving.fits(),
            needs@ == two + comp_needs(s.comps@, *leaving, i as nat),
        decreases s.comps.len() - i,
    {
        let c = &s.comps[i];
        if let Some(wcid) = c.wcid {
            let gone: u32 = leaving.of(wcid);
            let have: u32 = held_as_stock(c.carried, gone);
            if have < c.keep && !c.bought_to_sell {
                needs.push(
                    Need {
                        name: c.name.clone(),
                        want: c.keep - have,
                        have,
                        keep: c.keep,
                        urgent: have < c.keep / 4 && c.buyable,
                        buyable: c.buyable,
                        from: None,
                        kind: NeedKind::Component(wcid),
                    },
                );
            }
        }
        assert(needs@ =~= two + comp_needs(s.comps@, *leaving, (i + 1) as nat));
        i = i + 1;
    }
    needs
}

/// What a component is called: as it is carried, else as the table of
/// components has it, else by its symbol, else by its number.
pub fn component_name(carried: Option<&String>, table: Option<&String>, symbol: Option<&String>, id:
    u32) -> (r: String)
    ensures
        r@ == match (carried, table, symbol) {
            (Some(s), _, _) => s@,
            (None, Some(s), _) => s@,
            (None, None, Some(s)) => s@,
            (None, None, None) => "component "@ + counted(id as nat),
        },
{
    match carried {
        Some(s) => s.clone(),
        None => match table {
            Some(s) => s.clone(),
            None => match symbol {
                Some(s) => s.clone(),
                None => {
                    let n = count(id as u128);
                    cat2("component ", n.as_str())
                },
            },
        },
    }
}

/// A need is a line that is short, by as much as it wants; what cannot be bought
/// never drives a trip.
pub open spec fn is_shortfall(n: Need) -> bool {
    &&& n.have < n.keep
    &&& n.want == n.keep - n.have
    &&& !n.buyable ==> !n.urgent
}

proof fn lemma_named_needs(shorts: Seq<Short>, kits: bool, n: nat, i: int)
    requires
        n <= shorts.len(),
        0 <= i < named_needs(shorts, kits, n).len(),
    ensures
        is_shortfall(named_needs(shorts, kits, n)[i]),
    decreases n,
{
    if i < named_needs(shorts, kits, (n - 1) as nat).len() {
        lemma_named_needs(shorts, kits, (n - 1) as nat, i);
    }
}

proof fn lemma_comp_needs(comps: Seq<CompLine>, leaving: Leaving, n: nat, i: int)
    requires
        n <= comps.len(),
        0 <= i < comp_needs(comps, leaving, n).len(),
    ensures
        is_shortfall(comp_needs(comps, leaving, n)[i]),
    decreases n,
{
    if i < comp_needs(comps, leaving, (n - 1) as nat).len() {
        lemma_comp_needs(comps, leaving, (n - 1) as nat, i);
    }
}

/// Whatever the character is short of, it is short of by exactly what it wants,
/// and nothing that cannot be bought is ever urgent: a line nobody sells must
/// not send the party to town for ever.
pub proof fn law_needs_are_shortfalls(s: Stores, leaving: Leaving, cfg: Growth, i: int)
    requires
        0 <= i < spec_needs(s, leaving, cfg).len(),
    ensures
        is_shortfall(spec_needs(s, leaving, cfg)[i]),
{
    let named = named_needs(s.shorts@, s.heals_with_kits, s.shorts@.len());
    if i < named.len() {
        lemma_named_needs(s.shorts@, s.heals_with_kits, s.shorts@.len(), i);
    } else if s.casts {
        let all = spec_needs(s, leaving, cfg);
        let comps = comp_needs(s.comps@, leaving, s.comps@.len());
        let before = all.len() - comps.len();
        if i >= before {
            lemma_comp_needs(s.comps@, leaving, s.comps@.len(), i - before);
        }
    }
}

} // verus!
