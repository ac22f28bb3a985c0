//! What holds of what is remembered of raises, and of when one goes out.

use crate::clock::Moment;
use crate::raises::{batched, Offer, Raise};
use crate::spending::{
    calmed, climb_of, field_of, heard, is_sulking, line_of, skill_at, spec_raise_offers, spent,
    stands, still_sulks, sulks_left, too_soon, Formula, Memory, Nothing, Pending, Sheet, SkillLine,
};
use vstd::prelude::*;

verus! {

proof fn lemma_skill_at(skills: Seq<SkillLine>, id: u32, i: int)
    requires
        0 <= i <= skills.len(),
        forall|k: int| 0 <= k < i ==> (#[trigger] skills[k]).id != id,
    ensures
        match skill_at(skills, id, i) {
            Some(k) => 0 <= k < skills.len() && skills[k].id == id && forall|j: int|
                0 <= j < k ==> (#[trigger] skills[j]).id != id,
            None => forall|k: int| 0 <= k < skills.len() ==> (#[trigger] skills[k]).id != id,
        },
    decreases skills.len() - i,
{
    if i < skills.len() && skills[i].id != id {
        lemma_skill_at(skills, id, i + 1);
    }
}

/// A stat's line is the first of its skill, or that of its number among the
/// attributes or the vitals; how it stands is that line's ranks and experience.
pub proof fn law_where_a_stat_stands(sheet: Sheet, raise: Raise)
    ensures
        match raise {
            Raise::Skill(id) => match line_of(sheet, raise) {
                Some(l) => exists|k: int|
                    0 <= k < sheet.skills@.len() && (#[trigger] sheet.skills@[k]).id == id
                        && sheet.skills@[k].line == l && forall|j: int|
                        0 <= j < k ==> (#[trigger] sheet.skills@[j]).id != id,
                None => forall|k: int|
                    0 <= k < sheet.skills@.len() ==> (#[trigger] sheet.skills@[k]).id != id,
            },
            Raise::Attribute(i) => {
                &&& i < sheet.attributes@.len() ==> line_of(sheet, raise) == Some(
                    sheet.attributes@[i as int],
                )
                &&& i >= sheet.attributes@.len() ==> line_of(sheet, raise) is None
            },
            Raise::Vital(i) => {
                &&& i < sheet.vitals@.len() ==> line_of(sheet, raise) == Some(
                    sheet.vitals@[i as int],
                )
                &&& i >= sheet.vitals@.len() ==> line_of(sheet, raise) is None
            },
        },
        line_of(sheet, raise) is Some ==> stands(sheet, raise) == Some(
            (line_of(sheet, raise)->0.ranks, line_of(sheet, raise)->0.xp),
        ),
        line_of(sheet, raise) is None ==> stands(sheet, raise) is None,
{
    if let Raise::Skill(id) = raise {
        lemma_skill_at(sheet.skills@, id, 0);
    }
}

/// What is heard of a raise that was sent: it is over once its stat stands
/// otherwise than it did. Until then it is waited for, three seconds from when it
/// is first looked for; and then its stat sulks.
pub proof fn law_a_raise_is_waited_for(m: Memory, sheet: Sheet, now: Moment)
    ensures
        ({
            let (after, waits) = heard(m, sheet, now);
            let p = m.pending->0;
            let over = stands(sheet, p.raise) != p.was;
            let late = p.since is Some && now >= p.since->0 + 3_000_000_000;
            &&& m.pending is None ==> after == m && !waits
            &&& m.pending is Some && over ==> !waits && after == (Memory { pending: None, ..m })
            &&& m.pending is Some && !over && p.since is None ==> waits && after == (Memory {
                pending: Some(Pending { since: Some(now), ..p }),
                ..m
            })
            &&& m.pending is Some && !over && p.since is Some && !late ==> waits && after == m
            &&& m.pending is Some && !over && late ==> !waits && after.pending is None
                && after.sulking.len() == m.sulking.len() + 1 && after.sulking.last() == (p, now)
                && after.sulking.drop_last() == m.sulking && after.last_raise == m.last_raise
                && after.nothing_at == m.nothing_at
        }),
{
    let after = heard(m, sheet, now).0;
    if let Some(p) = m.pending {
        if after.sulking.len() > m.sulking.len() {
            assert(after.sulking.drop_last() =~= m.sulking);
        }
    }
}

/// A stat sulks for ten minutes, or until it stands otherwise than it did.
pub open spec fn sulks_on(s: (Pending, Moment), sheet: Sheet, now: Moment) -> bool {
    stands(sheet, s.0.raise) == s.0.was && now < s.1 + 600_000_000_000
}

proof fn lemma_sulks(s: Seq<(Pending, Moment)>, sheet: Sheet, now: Moment, n: nat)
    requires
        n <= s.len(),
    ensures
        sulks_left(s, sheet, now, n) == s.take(n as int).filter(
            |x: (Pending, Moment)| sulks_on(x, sheet, now),
        ),
    decreases n,
{
    reveal(Seq::filter);
    let p = |x: (Pending, Moment)| sulks_on(x, sheet, now);
    let all = s.take(n as int);
    if n > 0 {
        lemma_sulks(s, sheet, now, (n - 1) as nat);
        assert(all.drop_last() =~= s.take(n - 1));
        assert(all.last() == s[n - 1]);
        assert(still_sulks(s[n - 1], sheet, now) == sulks_on(s[n - 1], sheet, now));
    }
    assert(sulks_left(s, sheet, now, n) =~= all.filter(p));
}

/// Those that still sulk are kept, and once one has stopped there may be something
/// to buy again.
pub proof fn law_how_long_a_stat_sulks(m: Memory, sheet: Sheet, now: Moment)
    ensures
        ({
            let after = calmed(m, sheet, now);
            &&& after.sulking == m.sulking.filter(|x: (Pending, Moment)| sulks_on(x, sheet, now))
            &&& after.sulking.len() < m.sulking.len() ==> after.nothing_at is None
            &&& after.sulking.len() == m.sulking.len() ==> after.nothing_at == m.nothing_at
            &&& after.last_raise == m.last_raise && after.pending == m.pending
        }),
{
    lemma_sulks(m.sulking, sheet, now, m.sulking.len());
    assert(m.sulking.take(m.sulking.len() as int) =~= m.sulking);
    let p = |x: (Pending, Moment)| sulks_on(x, sheet, now);
    m.sulking.filter_lemma(p);
    lemma_filter_no_longer(m.sulking, p);
}

proof fn lemma_filter_no_longer(
    s: Seq<(Pending, Moment)>,
    p: spec_fn((Pending, Moment)) -> bool,
)
    ensures
        s.filter(p).len() <= s.len(),
    decreases s.len(),
{
    reveal(Seq::filter);
    if s.len() > 0 {
        lemma_filter_no_longer(s.drop_last(), p);
    }
}

/// It is too soon for a raise within seven tenths of a second of the last, and
/// within twenty seconds of having found nothing to buy with as much experience,
/// in a fight or out of one as now.
pub proof fn law_when_it_is_too_soon_to_raise(m: Memory, xp: i64, fighting: bool, now: Moment)
    ensures
        too_soon(m, xp, fighting, now) <==> (m.last_raise is Some && now < m.last_raise->0
            + 700_000_000) || (m.nothing_at is Some && m.nothing_at->0.at == xp
            && m.nothing_at->0.fighting == fighting && now < m.nothing_at->0.when
            + 20_000_000_000),
{
}

/// A stat is held back: what raises a maximum while there is a fight, and what
/// sulks.
pub open spec fn is_held(raise: Raise, fighting: bool, sulking: Seq<(Pending, Moment)>) -> bool {
    ||| fighting && match raise {
        Raise::Vital(_) => true,
        Raise::Attribute(i) => i == 1 || i == 5,
        Raise::Skill(_) => false,
    }
    ||| exists|i: int| 0 <= i < sulking.len() && (#[trigger] sulking[i]).0.raise == raise
}

/// An offer can be run for: its stat has a line, and what its ranks cost is known.
pub open spec fn can_run(sheet: Sheet, o: Offer) -> bool {
    line_of(sheet, o.raise) is Some && line_of(sheet, o.raise)->0.column is Some
}

proof fn lemma_field(
    sheet: Sheet,
    offers: Seq<Offer>,
    fighting: bool,
    sulking: Seq<(Pending, Moment)>,
    n: nat,
)
    requires
        n <= offers.len(),
    ensures
        field_of(sheet, offers, fighting, sulking, n) == offers.take(n as int).filter(
            |o: Offer| can_run(sheet, o),
        ).map_values(|o: Offer| climb_of(o, line_of(sheet, o.raise)->0, fighting, sulking)),
    decreases n,
{
    reveal(Seq::filter);
    let p = |o: Offer| can_run(sheet, o);
    let f = |o: Offer| climb_of(o, line_of(sheet, o.raise)->0, fighting, sulking);
    let all = offers.take(n as int);
    if n > 0 {
        lemma_field(sheet, offers, fighting, sulking, (n - 1) as nat);
        assert(all.drop_last() =~= offers.take(n - 1));
        assert(all.last() == offers[n - 1]);
    }
    assert(field_of(sheet, offers, fighting, sulking, n) =~= all.filter(p).map_values(f));
}

/// What is in the running is every offer whose ranks' costs are known, in order,
/// each with what it weighs, where it stands, what it costs and whether it is held
/// back.
pub proof fn law_everything_known_is_in_the_running(
    sheet: Sheet,
    offers: Seq<Offer>,
    fighting: bool,
    sulking: Seq<(Pending, Moment)>,
)
    ensures
        ({
            let field = field_of(sheet, offers, fighting, sulking, offers.len());
            let run = offers.filter(|o: Offer| can_run(sheet, o));
            &&& field.len() == run.len()
            &&& forall|i: int|
                0 <= i < field.len() ==> {
                    let c = #[trigger] field[i];
                    let o = run[i];
                    let l = line_of(sheet, o.raise)->0;
                    &&& c.raise == o.raise && c.weight == o.weight
                    &&& c.ladder.ranks == l.ranks && c.ladder.spent == l.xp
                    &&& *c.ladder.table == l.column->0
                    &&& c.held == is_held(o.raise, fighting, sulking)
                }
        }),
{
    lemma_field(sheet, offers, fighting, sulking, offers.len());
    assert(offers.take(offers.len() as int) =~= offers);
    let run = offers.filter(|o: Offer| can_run(sheet, o));
    assert forall|i: int| 0 <= i < run.len() implies is_sulking(
        sulking,
        (#[trigger] run[i]).raise,
    ) == (exists|k: int|
        0 <= k < sulking.len() && (#[trigger] sulking[k]).0.raise == run[i].raise) by {}
}

/// A raise goes out just when there is experience to spend on a character whose
/// level is known, none that was sent is waited for, it is not too soon, what ranks
/// cost is known, and the pool buys something that is not held back; and it is what
/// the pool buys. When there was nothing to buy that is remembered, and when it was
/// not asked it is not.
pub proof fn law_when_a_raise_goes_out(
    m: Memory,
    sheet: Sheet,
    formulas: Seq<Formula>,
    weapon_skill: Option<u32>,
    fighting: bool,
    now: Moment,
)
    ensures
        ({
            let (after, r) = spent(m, sheet, formulas, weapon_skill, fighting, now);
            let xp = sheet.available_xp;
            let (told, waits) = heard(m, sheet, now);
            let calm = calmed(told, sheet, now);
            let offers = spec_raise_offers(sheet, formulas, weapon_skill);
            let field = field_of(sheet, offers, fighting, calm.sulking, offers.len());
            let able = xp > 0 && sheet.level > 0;
            let asks = able && !waits && !too_soon(calm, xp, fighting, now);
            let buys = asks && sheet.table_known && batched(field, xp as int) is Some;
            &&& r.asked <==> asks
            &&& r.buy is Some <==> buys
            &&& buys ==> {
                let (raise, batch) = batched(field, xp as int)->0;
                &&& r.buy->0.raise == raise
                &&& r.buy->0.batch == batch
                &&& r.buy->0.was == stands(sheet, raise)
                &&& after == calm
            }
            &&& asks && !buys ==> after == (Memory {
                nothing_at: Some(Nothing { at: xp, fighting, when: now }),
                ..calm
            })
            &&& !able ==> after == m
            &&& able && waits ==> after == told
            &&& able && !waits && !asks ==> after == calm
        }),
{
}

} // verus!
