use ac_client::clock::{Moment, SECOND};
use ac_client::orders::{Doing, Order, PourEnd};
use ac_client::pour::{
    compress, keep_apart, pour_next, pour_sent, poured_for_run, settle_pour, Because, Did, Merge,
    Offered, PourAnswer, PourNext, Pouring, Unpoured,
};
use ac_client::run::Poured;

const EVERY: u64 = 600_000_000;
const T0: Moment = 50 * SECOND;
const MILLI: u64 = 1_000_000;

fn peas(from: u32, to: u32, amount: u32) -> Merge {
    Merge {
        from,
        to,
        amount,
        name: "Lead Pea".into(),
    }
}

fn nothing() -> Pouring {
    Pouring {
        sent: None,
        last: None,
    }
}

/// The next pour goes out, into a target holding `target`.
fn pour(p: &mut Pouring, m: Merge, target: u32, now: Moment, out: &mut Vec<Order>) {
    match pour_next(p, None, Offered::Next(m), EVERY, now) {
        PourNext::Send(m) => {
            assert!(pour_sent(p, m, Some(target), true, now, out).is_ok());
        }
        other => panic!("{other:?}"),
    }
}

fn ends(out: &[Order]) -> Vec<(u32, u32, PourEnd)> {
    out.iter()
        .filter_map(|o| match o {
            Order::PourWent { from, to, how } => Some((*from, *to, *how)),
            _ => None,
        })
        .collect()
}

fn read(out: &[Order]) -> Vec<u32> {
    out.iter()
        .filter_map(|o| match o {
            Order::RefusalRead(g) => Some(*g),
            _ => None,
        })
        .collect()
}

#[test]
fn lead_peas_taken_in_two_stacks_are_poured_together_without_a_tick_of_their_own() {
    let (mut p, mut out) = (nothing(), vec![]);
    pour(&mut p, peas(2, 1, 5), 40, T0, &mut out);
    let sent = p.sent.clone().expect("a pour went out").0;
    assert_eq!((sent.merge.from, sent.merge.to, sent.merge.amount), (2, 1, 5));
    assert_eq!(sent.to_before, 40);
    // Nothing else is asked for while the server has not answered: the counts
    // a second choice would be made from are stale.
    let said = settle_pour(&mut p, PourAnswer::InAir, None, None, &mut out);
    let next = pour_next(&mut p, said, Offered::Next(peas(3, 1, 1)), EVERY, T0 + 100 * MILLI);
    assert!(matches!(next, PourNext::Unpoured(Unpoured::Wait(Did::Waiting(_)))), "{next:?}");
    assert_eq!(p.sent.as_ref().map(|(s, _)| s.merge.from), Some(2));
    // The answer, read off the target's new size.
    let said = settle_pour(&mut p, PourAnswer::Landed, None, None, &mut out);
    assert!(said.is_none());
    assert!(p.sent.is_none(), "the pour landed");
    assert_eq!(ends(&out), vec![(2, 1, PourEnd::Landed)]);
    assert!(out.iter().any(|o| matches!(o, Order::Merged { from: 2, to: 1 })));
}

#[test]
fn a_pair_the_server_turns_down_does_not_stop_the_rest_being_tidied() {
    let (mut p, mut out) = (nothing(), vec![]);
    pour(&mut p, peas(2, 1, 900), 5000, T0, &mut out);
    // Refused under the source, with no reason at all, which is half of them.
    let said = settle_pour(
        &mut p,
        PourAnswer::Refused(0),
        Some(T0 + 50 * MILLI),
        None,
        &mut out,
    );
    assert!(
        matches!(&said, Some(Did::Blocked(Because::Ours(s)))
            if s == "the server would not put those two together"),
        "{said:?}"
    );
    assert_eq!(read(&out), vec![2], "the refusal was this pour's and is spent");
    assert_eq!(ends(&out), vec![(2, 1, PourEnd::Refused(0))]);
    let next = pour_next(&mut p, said, Offered::Next(peas(4, 3, 5)), EVERY, T0 + 650 * MILLI);
    assert!(matches!(next, PourNext::Unpoured(Unpoured::Turned(_))), "{next:?}");
    // The next look offers the next pair, the first being put off.
    assert!(keep_apart(2, 1, true, &[], None, None));
    assert!(!keep_apart(4, 3, false, &[], None, None));
    let next = pour_next(&mut p, None, Offered::Next(peas(4, 3, 5)), EVERY, T0 + 700 * MILLI);
    assert!(matches!(next, PourNext::Send(ref m) if (m.from, m.to) == (4, 3)), "{next:?}");
}

#[test]
fn a_refusal_naming_the_target_is_read_as_this_pours_answer() {
    let (mut p, mut out) = (nothing(), vec![]);
    pour(&mut p, peas(2, 1, 5), 40, T0, &mut out);
    let said = settle_pour(
        &mut p,
        PourAnswer::Refused(0x29),
        None,
        Some(T0 + 50 * MILLI),
        &mut out,
    );
    assert!(matches!(said, Some(Did::Blocked(Because::Server(0x29)))), "{said:?}");
    assert!(p.sent.is_none(), "the pour is over");
    assert_eq!(read(&out), vec![1]);
    // And the pair is left alone for a while rather than asked again.
    assert_eq!(ends(&out), vec![(2, 1, PourEnd::Refused(0x29))]);
}

#[test]
fn a_refusal_from_before_the_pour_is_not_its_answer() {
    let (mut p, mut out) = (nothing(), vec![]);
    pour(&mut p, peas(2, 1, 5), 40, T0, &mut out);
    settle_pour(&mut p, PourAnswer::Refused(7), Some(T0 - 1), Some(T0), &mut out);
    assert_eq!(read(&out), vec![1], "only the one that came after it");
}

#[test]
fn stacks_whose_words_disagree_are_never_poured_together() {
    let (keep, sell) = (Some(1), Some(2));
    // The big stack is meant for a counter, the small one is kept.
    assert!(keep_apart(2, 1, false, &[], keep, sell));
    // Nor into a stack nothing was decided about.
    assert!(keep_apart(2, 1, false, &[], sell, None));
    // Two stacks with one word are poured.
    assert!(!keep_apart(2, 1, false, &[], sell, sell));
    assert!(!keep_apart(2, 1, false, &[], None, None));
    // Not one that another errand is holding.
    assert!(keep_apart(2, 1, false, &[None, Some(1)], sell, sell));
    assert!(keep_apart(2, 1, false, &[Some(2)], sell, sell));
    assert!(!keep_apart(2, 1, false, &[Some(3), None], sell, sell));
}

#[test]
fn a_pour_with_no_word_at_all_is_given_up_on_and_the_pack_read_afresh() {
    let (mut p, mut out) = (nothing(), vec![]);
    pour(&mut p, peas(2, 1, 5), 40, T0, &mut out);
    assert!(p.sent.is_some());
    // Nothing comes back: no refusal, no new counts.
    let said = settle_pour(&mut p, PourAnswer::Lost, None, None, &mut out);
    assert!(said.is_none());
    assert!(p.sent.is_none(), "given up as lost");
    assert_eq!(ends(&out), vec![(2, 1, PourEnd::NoWord)]);
}

#[test]
fn a_tight_pack_and_a_laden_one_are_told_apart() {
    let mut p = nothing();
    let tight = pour_next(&mut p, None, Offered::Nothing, EVERY, T0);
    assert!(matches!(tight, PourNext::Unpoured(Unpoured::Tight)));
    let laden = pour_next(&mut p, None, Offered::TooHeavy, EVERY, T0);
    assert!(matches!(laden, PourNext::Unpoured(Unpoured::Laden)));
    // Within a moment of the last pour, the next one waits.
    p.last = Some(T0 - 1);
    let soon = pour_next(&mut p, None, Offered::Next(peas(2, 1, 5)), EVERY, T0);
    assert!(matches!(soon, PourNext::Unpoured(Unpoured::Wait(_))));

    let mut out = vec![];
    assert!(matches!(compress(Err(Unpoured::Tight), &mut out), Did::Done));
    let laden = compress(Err(Unpoured::Laden), &mut out);
    assert!(
        matches!(&laden, Did::Blocked(Because::Ours(s)) if s == "too laden to put stacks together")
    );
    assert!(out.is_empty());
    assert_eq!(poured_for_run(&laden), Poured::Settled);
    let acting = compress(Ok(peas(2, 1, 5)), &mut out);
    assert_eq!(poured_for_run(&acting), Poured::Acting);
    assert!(
        matches!(&out[0], Order::Say(Doing::Tidying, s) if s == "putting 5 Lead Pea with the rest")
    );
    assert_eq!(poured_for_run(&Did::Waiting("x".into())), Poured::Waiting);
}

#[test]
fn a_pour_our_own_rules_turn_down_is_never_offered_again() {
    let (mut p, mut out) = (nothing(), vec![]);
    let r = pour_sent(&mut p, peas(2, 1, 5), Some(40), false, T0, &mut out);
    assert!(matches!(r, Err(Unpoured::Turned(Did::Refused(Because::Ours(ref s))))
        if s == "those two will never join"));
    assert!(p.sent.is_none());
    assert_eq!(ends(&out), vec![(2, 1, PourEnd::NeverJoins)]);
    // A target of no size is one thing; one that is not known is none.
    assert!(pour_sent(&mut p, peas(2, 1, 5), Some(0), true, T0, &mut out).is_ok());
    assert_eq!(p.sent.as_ref().unwrap().0.to_before, 1);
    assert!(pour_sent(&mut p, peas(2, 1, 5), None, true, T0, &mut out).is_ok());
    assert_eq!(p.sent.as_ref().unwrap().0.to_before, 0);
}
