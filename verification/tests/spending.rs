use ac_client::advance::Ladder;
use ac_client::clock::{Moment, Span, SECOND};
use ac_client::raises::{choose_raise, Batch, Raise};
use ac_client::spending::{
    fighting_skill, SkillLine, Stance, HEAVY_WEAPONS, LIGHT_WEAPONS, MISSILE_WEAPONS, TRAINED,
    raise_offers, raises_a_maximum, say_raising, Sheet, Spending, StatLine, RAISE_EVERY,
    RAISE_SETTLE, SULK_FOR,
};

const TICK: Span = SECOND / 10;

/// A column shaped like the game's: the first rank costs `first`, each after
/// it a twelfth or so more, up to rank `top`.
fn column(first: u32, top: usize) -> Vec<u32> {
    let mut table = vec![0u32];
    let (mut total, mut step) = (0.0f64, f64::from(first));
    for _ in 0..top {
        total += step.round();
        table.push(total as u32);
        step *= 1.08;
    }
    table
}

fn line(table: &Vec<u32>) -> StatLine {
    let mut l = StatLine {
        ranks: 0,
        xp: 0,
        cost: None,
        column: Some(table.clone()),
    };
    price(&mut l);
    l
}

fn price(l: &mut StatLine) {
    let table = l.column.clone().unwrap();
    let ladder = Ladder {
        table: &table,
        ranks: l.ranks,
        spent: l.xp,
    };
    l.cost = ladder.next_cost();
}

/// A session of its own: the sheet, and what spending remembers.
struct Session {
    sheet: Sheet,
    spending: Spending,
    auto_xp: bool,
    fighting: bool,
    actions_sent: u32,
}

/// A level 10 character with `xp` to spend and nothing spent yet.
fn with_experience_to_spend(xp: i64) -> Session {
    let (attribute, vital) = (column(110, 190), column(73, 196));
    Session {
        sheet: Sheet {
            available_xp: xp,
            level: 10,
            skills: vec![],
            attributes: (0..6).map(|_| line(&attribute)).collect(),
            vitals: (0..3).map(|_| line(&vital)).collect(),
            table_known: true,
        },
        spending: Spending::default(),
        auto_xp: true,
        fighting: false,
        actions_sent: 0,
    }
}

impl Session {
    /// Look at the pool and send what is worth sending; whether anything was.
    fn grow_spend_xp(&mut self, now: Moment) -> bool {
        let xp = self.sheet.available_xp;
        let spend = self.spending.autoplay_spend_xp(
            self.auto_xp,
            &self.sheet,
            &[],
            None,
            self.fighting,
            now,
        );
        match spend.and_then(|s| s.buy) {
            Some(p) => {
                self.spending.raise_sent(p, true, xp, self.fighting, now);
                self.actions_sent += 1;
                true
            }
            None => false,
        }
    }

    /// The raise last sent, still waiting on its answer.
    fn sent(&self) -> (Raise, Batch) {
        let p = self.spending.pending.expect("a raise was sent");
        (p.raise, p.batch)
    }

    fn line(&mut self, pick: Raise) -> &mut StatLine {
        match pick {
            Raise::Skill(_) => unreachable!("no skill is on the sheet"),
            Raise::Attribute(i) => &mut self.sheet.attributes[i],
            Raise::Vital(i) => &mut self.sheet.vitals[i],
        }
    }

    /// The server taking a raise. It would refuse one past the pool or past
    /// the experience left to the top, so neither may ever be sent; otherwise
    /// the pool pays, the stat takes all of it, and its rank is the highest
    /// the experience spent on it reaches.
    fn server_takes(&mut self, pick: Raise, batch: Batch) {
        let pool = self.sheet.available_xp;
        let l = self.line(pick);
        let table = l.column.clone().unwrap();
        let ladder = Ladder {
            table: &table,
            ranks: l.ranks,
            spent: l.xp,
        };
        let left = ladder.cost_to(ladder.top()).expect("not at the top");
        assert!(batch.xp <= left, "{pick:?}: past the {left} left to the top");
        assert!(i64::from(batch.xp) <= pool, "{pick:?}: more than the pool");
        let ranks = ladder.rank_after(batch.xp);
        assert_eq!(ranks, ladder.ranks + batch.ranks, "{pick:?}: sized wrong");
        l.ranks = ranks;
        l.xp += batch.xp;
        price(l);
        self.sheet.available_xp -= i64::from(batch.xp);
    }

    /// Up to `messages` raises, a `RAISE_EVERY` apart from `from`, the server
    /// taking each one.
    fn buy_ranks(&mut self, from: Moment, messages: u64) -> Vec<Raise> {
        let mut bought = Vec::new();
        for n in 0..messages {
            if !self.grow_spend_xp(from + RAISE_EVERY * n) {
                continue;
            }
            let (pick, batch) = self.sent();
            self.server_takes(pick, batch);
            bought.push(pick);
        }
        bought
    }

    /// Spending looked at every tenth of a second from `from`, the server
    /// taking each raise as it goes out. When it stopped, and how many went.
    fn spend_for(&mut self, from: Moment, how_long: Span) -> (Moment, u32) {
        let (mut t, mut messages) = (from, 0);
        while t < from + how_long {
            if self.grow_spend_xp(t) {
                let (pick, batch) = self.sent();
                self.server_takes(pick, batch);
                messages += 1;
            }
            t += TICK;
        }
        (t, messages)
    }

    fn ranks(&self) -> Vec<(u32, u32)> {
        let s = &self.sheet;
        s.attributes.iter().chain(&s.vitals).map(|l| (l.ranks, l.xp)).collect()
    }
}

const START: Moment = 1_000 * SECOND;

#[test]
fn nothing_is_sent_with_auto_xp_off_or_nothing_to_spend() {
    let mut c = with_experience_to_spend(1_000_000);
    let at = |s: u64| START + s * SECOND;

    c.auto_xp = false;
    for s in 0..30 {
        c.grow_spend_xp(at(s));
    }
    assert_eq!(c.actions_sent, 0, "spent with auto_xp off");

    // On, with an empty pool, or one short of the cheapest rank.
    c.auto_xp = true;
    for (s, pool) in [0, -5, 1].into_iter().enumerate() {
        c.sheet.available_xp = pool;
        c.grow_spend_xp(at(30 + s as u64));
    }
    assert_eq!(c.actions_sent, 0, "spent with nothing to spend");

    // With something in the pool, a rank goes out.
    c.sheet.available_xp = 1_000_000;
    c.grow_spend_xp(at(40));
    assert_eq!(c.actions_sent, 1);
}

#[test]
fn a_rank_the_server_refuses_is_not_asked_for_again_while_it_sulks() {
    let mut c = with_experience_to_spend(1_000_000);
    assert!(c.grow_spend_xp(START));
    let (refused, _) = c.sent();

    // Nothing comes back. Nothing more is asked for until the server has had
    // time to answer, from the look after it went out.
    let out = START + TICK;
    assert!(!c.grow_spend_xp(out));
    assert!(!c.grow_spend_xp(out + RAISE_SETTLE / 2));
    assert_eq!(c.actions_sent, 1);

    // Then it is taken as refused, and the rest are bought instead for as
    // long as the refusal holds, the server taking each.
    let sulked = out + RAISE_SETTLE;
    let mut t = sulked;
    let mut bought = 0;
    while t < sulked + SULK_FOR {
        if c.grow_spend_xp(t) {
            let (pick, batch) = c.sent();
            assert_ne!(pick, refused, "asked again {} ns after", t - START);
            c.server_takes(pick, batch);
            bought += 1;
        }
        t += 5 * SECOND;
    }
    assert!(bought > 0, "nothing else was bought");

    // Once the sulk is over it is the best buy again, and what is left of the
    // pool was kept for it.
    assert!(c.grow_spend_xp(sulked + SULK_FOR + 5 * SECOND));
    assert_eq!(c.sent().0, refused);
}

#[test]
fn a_raise_is_not_given_up_on_before_it_has_gone_out() {
    let mut c = with_experience_to_spend(10_000_000_000);
    let round = 46 * TICK;
    assert!(c.grow_spend_xp(START));
    let (pick, batch) = c.sent();
    assert!(!c.grow_spend_xp(START + round));
    assert!(c.spending.sulking.is_empty(), "{pick:?} was given up on as it went out");
    // The answer comes, and the next raise goes out on the round after.
    c.server_takes(pick, batch);
    assert!(c.grow_spend_xp(START + round * 2));
    assert!(c.spending.sulking.is_empty());
    assert_eq!(c.actions_sent, 2);
}

#[test]
fn an_answer_that_comes_late_ends_the_wait_and_finds_its_share_kept() {
    // A stat given up on must not lose its share of the pool to the others
    // meanwhile, nor stay shut out once its answer is in.
    let pool = 10_000_000_000;
    let mut slow = with_experience_to_spend(pool);
    let mut calm = with_experience_to_spend(pool);
    calm.spend_for(START, 120 * SECOND);

    // The first raise goes unanswered, and is given up on.
    assert!(slow.grow_spend_xp(START));
    let (late, late_batch) = slow.sent();
    let mut t = START + TICK;
    loop {
        assert!(t < START + 5 * SECOND, "never given up on");
        let went = slow.grow_spend_xp(t);
        t += TICK;
        if slow.spending.sulking.is_empty() {
            assert!(!went, "another raise went out before it was given up on");
            continue;
        }
        // Given up on; the next raise goes out in the same look.
        if went {
            let (pick, batch) = slow.sent();
            assert_ne!(pick, late, "sized again before its answer came");
            slow.server_takes(pick, batch);
        }
        break;
    }
    // The rest go out and are answered at once, and none of them is the late
    // one sized again.
    let mut others = 0;
    while t < START + 20 * SECOND {
        if slow.grow_spend_xp(t) {
            let (pick, batch) = slow.sent();
            assert_ne!(pick, late, "sized again before its answer came");
            slow.server_takes(pick, batch);
            others += 1;
        }
        t += TICK;
    }
    assert!(others > 0, "nothing else went out");
    // Twenty seconds on, the answer comes. The pool still holds it.
    slow.server_takes(late, late_batch);
    slow.spend_for(t, 100 * SECOND);
    assert!(slow.spending.sulking.is_empty(), "still waiting on an answer that came");
    // And it all comes to what a server that answers at once gives.
    assert_eq!(slow.sheet.available_xp, calm.sheet.available_xp);
    assert_eq!(slow.ranks(), calm.ranks());
}

#[test]
fn a_stat_is_not_sized_again_before_its_answer_comes() {
    // A kill's experience moves the pool too. Taken for the answer, it let the
    // stat be sized again from the record the answer had not reached yet.
    let mut c = with_experience_to_spend(10_000_000_000);
    assert!(c.grow_spend_xp(START));
    let (pick, batch) = c.sent();
    c.sheet.available_xp += 2_000_000;
    for n in 1..=5 {
        assert!(!c.grow_spend_xp(START + RAISE_EVERY * n), "a raise went out before its answer");
    }
    c.server_takes(pick, batch);
    assert!(c.grow_spend_xp(START + RAISE_EVERY * 6));
    let (next, next_batch) = c.sent();
    c.server_takes(next, next_batch);
    assert_eq!(c.actions_sent, 2);
}

#[test]
fn raises_sent_while_the_server_is_not_answering_come_to_no_more_than_the_pool() {
    let pool = 10_000_000_000;
    let mut stalled = with_experience_to_spend(pool);
    let mut calm = with_experience_to_spend(pool);
    calm.spend_for(START, 120 * SECOND);

    let mut queued = Vec::new();
    let mut t = START;
    while t < START + 90 * SECOND {
        if stalled.grow_spend_xp(t) {
            queued.push(stalled.sent());
        }
        t += TICK;
    }
    assert!(queued.len() > 1, "only {queued:?} went out");
    let total: i64 = queued.iter().map(|(_, b)| i64::from(b.xp)).sum();
    assert!(total <= pool, "{total} xp queued against a pool of {pool}: {queued:?}");
    // The server wakes and takes them in order, refusing none, and the rest of
    // the pool goes as it would have gone.
    for (pick, batch) in queued {
        stalled.server_takes(pick, batch);
    }
    stalled.spend_for(t, 120 * SECOND);
    assert_eq!(stalled.sheet.available_xp, calm.sheet.available_xp);
    assert_eq!(stalled.ranks(), calm.ranks());
}

#[test]
fn a_fight_does_not_sell_off_the_share_kept_for_the_maximums() {
    let pool = 10_000_000_000;
    let mut fighting = with_experience_to_spend(pool);
    let mut calm = with_experience_to_spend(pool);
    calm.spend_for(START, 120 * SECOND);

    fighting.fighting = true;
    let bought = fighting.buy_ranks(START, 80);
    assert!(!bought.is_empty(), "spending stopped for the fight");
    assert!(
        !bought.iter().copied().any(raises_a_maximum),
        "a maximum was raised mid-fight: {bought:?}"
    );
    for (f, c) in fighting.sheet.attributes.iter().zip(&calm.sheet.attributes) {
        assert!(f.ranks <= c.ranks, "ran ahead to {} in the fight, against {}", f.ranks, c.ranks);
    }

    // The fight is over, and what was kept for the maximums buys them.
    fighting.fighting = false;
    fighting.spend_for(START + RAISE_EVERY * 80, 120 * SECOND);
    assert_eq!(fighting.sheet.available_xp, calm.sheet.available_xp);
    assert_eq!(fighting.ranks(), calm.ranks());
}

#[test]
fn a_rank_that_raises_a_maximum_waits_for_the_fight_to_be_over() {
    let pool = 100_000_000_000;
    let mut calm = with_experience_to_spend(pool);
    let mut fighting = with_experience_to_spend(pool);
    // With nothing to fight, the maximums are among the best buys.
    let bought = calm.buy_ranks(START, 20);
    assert!(bought.iter().copied().any(raises_a_maximum), "{bought:?}");

    fighting.fighting = true;
    let bought = fighting.buy_ranks(START, 20);
    assert!(
        !bought.iter().copied().any(raises_a_maximum),
        "a maximum was raised mid-fight: {bought:?}"
    );
    // Spending did not stop for the fight: a pool this size takes every
    // attribute that raises no maximum to the top, a message each, and leaves
    // the ones that do where they were.
    let top = column(110, 190).len() as u32 - 1;
    for (i, a) in fighting.sheet.attributes.iter().enumerate() {
        let held = raises_a_maximum(Raise::Attribute(i));
        assert_eq!(a.ranks, if held { 0 } else { top }, "attribute {i}: {bought:?}");
    }

    // The foe is dead, its experience comes in, and the maximums are bought
    // again.
    fighting.fighting = false;
    fighting.sheet.available_xp += 1_000;
    let bought = fighting.buy_ranks(START + RAISE_EVERY * 20, 20);
    assert!(bought.iter().copied().any(raises_a_maximum), "{bought:?}");
}

#[test]
fn a_pool_worth_hundreds_of_ranks_is_spent_within_a_minute() {
    let pool = 1_000_000;
    let mut batched = with_experience_to_spend(pool);
    let mut one_at_a_time = with_experience_to_spend(pool);
    // A rank a message to the end of the pool.
    let mut ranks = 0;
    while let Some(pick) = choose_raise(
        &raise_offers(&one_at_a_time.sheet, &[], None),
        one_at_a_time.sheet.available_xp,
    ) {
        let xp = one_at_a_time.line(pick).cost.expect("a price");
        one_at_a_time.server_takes(pick, Batch { ranks: 1, xp });
        ranks += 1;
    }
    assert!(ranks >= 300, "the pool is worth only {ranks} ranks, so this proves nothing");

    let (_, messages) = batched.spend_for(START, 60 * SECOND);
    // All of it that a rank at a time spends: what is left is saved for the
    // next best buy.
    let left = batched.sheet.available_xp;
    assert_eq!(left, one_at_a_time.sheet.available_xp, "{left} of {pool} left, {messages} messages");
    assert!(messages * 5 < ranks, "{messages} messages for {ranks} ranks");
    // Spread over the attributes and vitals as a rank at a time spreads it.
    for (b, o) in batched.ranks().iter().zip(&one_at_a_time.ranks()) {
        assert!(b.0.abs_diff(o.0) <= 1, "{} against {}", b.0, o.0);
    }
}

#[test]
fn a_kills_worth_of_experience_still_goes_a_rank_a_message() {
    let mut c = with_experience_to_spend(400);
    let (mut t, mut messages) = (START, 0);
    while t < START + 30 * SECOND {
        if c.grow_spend_xp(t) {
            let (pick, batch) = c.sent();
            let one = c.line(pick).cost.map(|xp| Batch { ranks: 1, xp });
            assert_eq!(Some(batch), one, "{pick:?}");
            c.server_takes(pick, batch);
            messages += 1;
        }
        t += TICK;
    }
    assert!(messages >= 2, "only {messages} ranks");
}

#[test]
fn a_raise_is_said_with_its_ranks() {
    assert_eq!(say_raising("Focus", 1, 1_200), "raising Focus (1200 xp to spend)");
    assert_eq!(say_raising("Focus", 12, 0), "raising Focus 12 ranks (0 xp to spend)");
}

#[test]
fn a_character_fights_with_what_its_hands_say() {
    let skill = |id: u32, ranks: u32| SkillLine {
        id,
        advancement: TRAINED,
        line: StatLine {
            ranks,
            xp: 0,
            cost: None,
            column: None,
        },
    };
    let skills = [skill(HEAVY_WEAPONS, 5), skill(LIGHT_WEAPONS, 50)];
    assert_eq!(fighting_skill(Stance::Magic, None, &skills), Some(0));
    assert_eq!(fighting_skill(Stance::Melee, None, &skills), None, "empty hands");
    assert_eq!(fighting_skill(Stance::Melee, Some(Some(46)), &skills), Some(46));
    assert_eq!(fighting_skill(Stance::Missile, Some(None), &skills), Some(MISSILE_WEAPONS));
    assert_eq!(fighting_skill(Stance::Melee, Some(None), &skills), Some(LIGHT_WEAPONS));
    // What a raise is of, by name.
    let (attributes, vitals) = (["Strength", "Endurance"], ["Health"]);
    assert_eq!(Raise::Attribute(1).name("?", &attributes, &vitals), "Endurance");
    assert_eq!(Raise::Vital(0).name("?", &attributes, &vitals), "Health");
    assert_eq!(Raise::Skill(34).name("War Magic", &attributes, &vitals), "War Magic");
}
