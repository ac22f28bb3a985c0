//! Pouring loose stacks into one another, one at a time.

use crate::clock::{since, spec_since, Moment, Span};
use crate::grow_laws::law_what_an_errand_holds;
use crate::orders::{deeds, give, say, Deed, Doing, Order, PourEnd};
use crate::run::Poured;
use crate::text::{cat5, count, counted};
use vstd::prelude::*;
use vstd::string::*;

verus! {

/// One stack to be poured into another.
#[derive(Clone, Debug)]
pub struct Merge {
    pub from: u32,
    pub to: u32,
    pub amount: u32,
    pub name: String,
}

/// A pour that was sent, and what its target held before.
#[derive(Clone, Debug)]
pub struct PourSent {
    pub merge: Merge,
    pub to_before: u32,
}

/// What the counts and the server's refusals say of the pour in the air.
#[derive(Clone, Copy, Debug, PartialEq, Eq, Structural)]
pub enum PourAnswer {
    /// Nothing yet.
    InAir,
    /// The target grew by it.
    Landed,
    /// Turned down, with the server's code.
    Refused(u32),
    /// No word in all the time it is given.
    Lost,
}

/// Why something cannot be done.
#[derive(Clone, Debug)]
pub enum Because {
    /// By the character's own rules.
    Ours(String),
    /// The server's code.
    Server(u32),
}

/// What came of trying something.
#[derive(Clone, Debug)]
pub enum Did {
    /// There is nothing left to do.
    Done,
    /// Something was sent.
    Acting,
    /// An answer is waited for.
    Waiting(String),
    /// It cannot be done for now.
    Blocked(Because),
    /// It will never be done.
    Refused(Because),
}

/// What came of trying something, with the words as texts.
pub enum Came {
    Done,
    Acting,
    Waiting(Seq<char>),
    Ours(Seq<char>),
    Server(u32),
    Never(Seq<char>),
    NeverServer(u32),
}

impl View for Did {
    type V = Came;

    open spec fn view(&self) -> Came {
        match *self {
            Did::Done => Came::Done,
            Did::Acting => Came::Acting,
            Did::Waiting(s) => Came::Waiting(s@),
            Did::Blocked(Because::Ours(s)) => Came::Ours(s@),
            Did::Blocked(Because::Server(c)) => Came::Server(c),
            Did::Refused(Because::Ours(s)) => Came::Never(s@),
            Did::Refused(Because::Server(c)) => Came::NeverServer(c),
        }
    }
}

/// Why no stack was poured into another.
///
/// Four answers rather than one, because the callers do different things with
/// them: a town run stays where it is while a pour is in the air, and walks on
/// to the counter when the pack is tight or the character too laden.
#[derive(Clone, Debug)]
pub enum Unpoured {
    /// The pack is as tight as it goes.
    Tight,
    /// There is something to pour and no room to be handed it. The server
    /// weighs a pour as though the source were being picked up anew.
    Laden,
    /// The last pour has not been answered yet.
    Wait(Did),
    /// This pour was turned down, by the server or by the character's own
    /// rules.
    Turned(Did),
}

/// The pour in the air, and when the last one was sent.
#[derive(Clone, Debug)]
pub struct Pouring {
    pub sent: Option<(PourSent, Moment)>,
    pub last: Option<Moment>,
}

/// A refusal to move something is about what was sent at `at`, or later.
pub open spec fn about(refused: Option<Moment>, at: Moment) -> bool {
    match refused {
        Some(when) => when >= at,
        None => false,
    }
}

/// What the refusals of the two stacks leave to be marked as read.
pub open spec fn refusals_read(
    from: u32,
    to: u32,
    from_refused: Option<Moment>,
    to_refused: Option<Moment>,
    at: Moment,
) -> Seq<Deed> {
    (if about(from_refused, at) {
        seq![Deed::RefusalRead(from)]
    } else {
        seq![]
    }) + (if about(to_refused, at) && !(from == to && about(from_refused, at)) {
        seq![Deed::RefusalRead(to)]
    } else {
        seq![]
    })
}

/// What the server's answer to the pour in the air means: what there is to say,
/// what is ordered, and whether the pour is over.
pub open spec fn pour_settled(
    sent: PourSent,
    at: Moment,
    answer: PourAnswer,
    from_refused: Option<Moment>,
    to_refused: Option<Moment>,
) -> (Option<Came>, Seq<Deed>, bool) {
    let from = sent.merge.from;
    let to = sent.merge.to;
    match answer {
        PourAnswer::InAir => (
            Some(Came::Waiting("the last pour has not landed yet"@)),
            seq![],
            false,
        ),
        PourAnswer::Landed => (
            None,
            seq![
                Deed::Merged { from, to },
                Deed::PourWent { from, to, how: PourEnd::Landed },
            ],
            true,
        ),
        PourAnswer::Refused(code) => (
            Some(
                if code == 0 {
                    Came::Ours("the server would not put those two together"@)
                } else {
                    Came::Server(code)
                },
            ),
            refusals_read(from, to, from_refused, to_refused, at).push(
                Deed::PourWent { from, to, how: PourEnd::Refused(code) },
            ),
            true,
        ),
        PourAnswer::Lost => (
            None,
            seq![Deed::PourWent { from, to, how: PourEnd::NoWord }],
            true,
        ),
    }
}

/// What came of something, where something is said of it.
pub open spec fn came_of(r: Option<Did>) -> Option<Came> {
    match r {
        Some(did) => Some(did@),
        None => None,
    }
}

/// Read the server's answer to the pour in the air, if there is one.
///
/// `None` means there is nothing to wait for: no pour was sent, or the one sent
/// is over. `Waiting` means it is still out there and the counts a new choice
/// would be made from are stale. Anything else is what the server said of it.
///
/// What the surviving stack was taken for is settled when the pour lands rather
/// than when it is sent: a refused one settles nothing. A refusal read is spent:
/// it was about this pour, and left behind would answer the next one too. A pour
/// without any word is no refusal: the pair is left a moment and offered again.
pub fn settle_pour(
    p: &mut Pouring,
    answer: PourAnswer,
    from_refused: Option<Moment>,
    to_refused: Option<Moment>,
    out: &mut Vec<Order>,
) -> (r: Option<Did>)
    ensures
        final(p).last == old(p).last,
        match old(p).sent {
            None => *final(p) == *old(p) && r is None && deeds(final(out)@) == deeds(old(out)@),
            Some((sent, at)) => {
                let (came, orders, over) = pour_settled(
                    sent,
                    at,
                    answer,
                    from_refused,
                    to_refused,
                );
                &&& came_of(r) == came
                &&& deeds(final(out)@) == deeds(old(out)@) + orders
                &&& final(p).sent == if over {
                    None
                } else {
                    old(p).sent
                }
            },
        },
{
    let (from, to, at) = match &p.sent {
        None => return None,
        Some((sent, at)) => (sent.merge.from, sent.merge.to, *at),
    };
    let ghost (was, _) = p.sent->0;
    let ghost orders = pour_settled(was, at, answer, from_refused, to_refused).1;
    match answer {
        PourAnswer::InAir => {
            assert(deeds(out@) =~= deeds(old(out)@) + orders);
            Some(Did::Waiting(String::from_str("the last pour has not landed yet")))
        },
        PourAnswer::Landed => {
            give(out, Order::Merged { from, to });
            give(out, Order::PourWent { from, to, how: PourEnd::Landed });
            p.sent = None;
            assert(deeds(out@) =~= deeds(old(out)@) + orders);
            None
        },
        PourAnswer::Refused(code) => {
            let first = match from_refused {
                Some(when) => when >= at,
                None => false,
            };
            let second = match to_refused {
                Some(when) => when >= at,
                None => false,
            };
            if first {
                give(out, Order::RefusalRead(from));
            }
            if second && !(from == to && first) {
                give(out, Order::RefusalRead(to));
            }
            give(out, Order::PourWent { from, to, how: PourEnd::Refused(code) });
            p.sent = None;
            assert(deeds(out@) =~= deeds(old(out)@) + orders);
            if code == 0 {
                Some(
                    Did::Blocked(
                        Because::Ours(
                            String::from_str("the server would not put those two together"),
                        ),
                    ),
                )
            } else {
                Some(Did::Blocked(Because::Server(code)))
            }
        },
        PourAnswer::Lost => {
            give(out, Order::PourWent { from, to, how: PourEnd::NoWord });
            p.sent = None;
            assert(deeds(out@) =~= deeds(old(out)@) + orders);
            None
        },
    }
}

/// Another errand is holding one of the two stacks.
pub open spec fn held_by_one(errands: Seq<Option<u32>>, from: u32, to: u32) -> bool {
    exists|i: int|
        0 <= i < errands.len() && (#[trigger] errands[i] == Some(from) || errands[i] == Some(to))
}

/// Whether two stacks are not to be poured together: the server has turned the
/// pair down and its time is not up (`put_off`), another errand is holding one
/// of them, or the words on them disagree. A pour makes one stack of two, and
/// one stack carries one word: kept apart, each goes where its own says.
pub fn keep_apart(
    from: u32,
    to: u32,
    put_off: bool,
    errands: &[Option<u32>],
    from_word: Option<u32>,
    to_word: Option<u32>,
) -> (r: bool)
    ensures
        r == (put_off || held_by_one(errands@, from, to) || from_word != to_word),
        put_off ==> r,
        from_word != to_word ==> r,
        errands@.contains(Some(from)) || errands@.contains(Some(to)) ==> r,
        !put_off && from_word == to_word && !errands@.contains(Some(from)) && !errands@.contains(
            Some(to),
        ) ==> !r,
{
    proof {
        law_what_an_errand_holds(errands@, from, to);
    }
    if put_off || from_word != to_word {
        return true;
    }
    let mut i: usize = 0;
    while i < errands.len()
        invariant
            i <= errands.len(),
            forall|k: int|
                0 <= k < i ==> #[trigger] errands@[k] != Some(from) && errands@[k] != Some(to),
        decreases errands.len() - i,
    {
        if let Some(g) = errands[i] {
            if g == from || g == to {
                assert(errands@[i as int] == Some(from) || errands@[i as int] == Some(to));
                return true;
            }
        }
        i = i + 1;
    }
    false
}

/// What the pack offers to pour, with the pairs that are kept apart left out.
#[derive(Clone, Debug)]
pub enum Offered {
    /// The next pour.
    Next(Merge),
    /// One that is too heavy to be handed.
    TooHeavy,
    Nothing,
}

/// What is done about pouring.
#[derive(Clone, Debug)]
pub enum PourNext {
    /// Send this pour.
    Send(Merge),
    Unpoured(Unpoured),
}

/// Choose the next pour, once the last is settled. One at a time, because the
/// server answers in its own time and the counts a second choice would be made
/// from are the ones from before the first; and none within `every` of the last
/// one sent.
pub fn pour_next(
    p: &mut Pouring,
    settled: Option<Did>,
    offered: Offered,
    every: Span,
    now: Moment,
) -> (r: PourNext)
    ensures
        final(p).sent == old(p).sent,
        match settled {
            Some(did) => final(p).last == old(p).last && r == PourNext::Unpoured(
                if did is Waiting {
                    Unpoured::Wait(did)
                } else {
                    Unpoured::Turned(did)
                },
            ),
            None => match offered {
                Offered::TooHeavy => final(p).last == old(p).last && r == PourNext::Unpoured(
                    Unpoured::Laden,
                ),
                Offered::Nothing => final(p).last == old(p).last && r == PourNext::Unpoured(
                    Unpoured::Tight,
                ),
                Offered::Next(m) => if old(p).last is Some && spec_since(now, old(p).last->0)
                    < every {
                    &&& final(p).last == old(p).last
                    &&& match r {
                        PourNext::Unpoured(Unpoured::Wait(did)) => did@ == Came::Waiting(
                            "the last pour has not landed yet"@,
                        ),
                        _ => false,
                    }
                } else {
                    final(p).last == Some(now) && r == PourNext::Send(m)
                },
            },
        },
        r is Send <==> settled is None && offered is Next && (old(p).last is None || every == 0
            || now >= old(p).last->0 + every),
        final(p).last == if r is Send {
            Some(now)
        } else {
            old(p).last
        },
{
    if let Some(did) = settled {
        return PourNext::Unpoured(
            match did {
                Did::Waiting(s) => Unpoured::Wait(Did::Waiting(s)),
                did => Unpoured::Turned(did),
            },
        );
    }
    let m = match offered {
        Offered::Next(m) => m,
        Offered::TooHeavy => return PourNext::Unpoured(Unpoured::Laden),
        Offered::Nothing => return PourNext::Unpoured(Unpoured::Tight),
    };
    if let Some(t) = p.last {
        if since(now, t) < every {
            return PourNext::Unpoured(
                Unpoured::Wait(
                    Did::Waiting(String::from_str("the last pour has not landed yet")),
                ),
            );
        }
    }
    p.last = Some(now);
    PourNext::Send(m)
}

/// What a stack holds, of one that is known; a stack of nothing is one thing.
pub open spec fn stack_of(size: Option<u32>) -> u32 {
    match size {
        Some(0) => 1,
        Some(n) => n,
        None => 0,
    }
}

/// A pour was handed over to be sent: remember it until the server answers, or,
/// where it `went` nowhere, leave the pair alone. `target` is what its target
/// holds.
pub fn pour_sent(
    p: &mut Pouring,
    m: Merge,
    target: Option<u32>,
    went: bool,
    now: Moment,
    out: &mut Vec<Order>,
) -> (r: Result<Merge, Unpoured>)
    ensures
        final(p).last == old(p).last,
        went ==> {
            &&& r == Ok::<Merge, Unpoured>(m)
            &&& final(p).sent == Some((PourSent { merge: m, to_before: stack_of(target) }, now))
            &&& deeds(final(out)@) == deeds(old(out)@)
        },
        !went ==> {
            &&& match r {
                Err(Unpoured::Turned(did)) => did@ == Came::Never("those two will never join"@),
                _ => false,
            }
            &&& final(p).sent == old(p).sent
            &&& deeds(final(out)@) == deeds(old(out)@).push(
                Deed::PourWent { from: m.from, to: m.to, how: PourEnd::NeverJoins },
            )
        },
{
    if !went {
        give(out, Order::PourWent { from: m.from, to: m.to, how: PourEnd::NeverJoins });
        return Err(
            Unpoured::Turned(
                Did::Refused(Because::Ours(String::from_str("those two will never join"))),
            ),
        );
    }
    let to_before: u32 = match target {
        Some(n) => if n == 0 {
            1
        } else {
            n
        },
        None => 0,
    };
    let kept = Merge { from: m.from, to: m.to, amount: m.amount, name: m.name.clone() };
    p.sent = Some((PourSent { merge: kept, to_before }, now));
    Ok(m)
}

/// Pour one loose stack into another, and say what came of it.
///
/// `Done` means the pack is as tight as it goes. `Blocked` means nothing can be
/// poured until the character is lighter: the server weighs a pour as though
/// the source were being picked up for the first time, so a character near its
/// ceiling is refused a move that changes its burden by nothing at all.
pub fn compress(poured: Result<Merge, Unpoured>, out: &mut Vec<Order>) -> (r: Did)
    ensures
        match poured {
            Ok(m) => r is Acting && deeds(final(out)@) == deeds(old(out)@).push(
                Deed::Say(
                    Doing::Tidying,
                    "putting "@ + counted(m.amount as nat) + " "@ + m.name@ + " with the rest"@,
                ),
            ),
            Err(why) => {
                &&& deeds(final(out)@) == deeds(old(out)@)
                &&& match why {
                    Unpoured::Tight => r is Done,
                    Unpoured::Laden => r@ == Came::Ours("too laden to put stacks together"@),
                    Unpoured::Wait(did) => r == did,
                    Unpoured::Turned(did) => r == did,
                }
            },
        },
{
    match poured {
        Ok(m) => {
            let n = count(m.amount as u128);
            say(
                out,
                Doing::Tidying,
                cat5("putting ", n.as_str(), " ", m.name.as_str(), " with the rest"),
            );
            Did::Acting
        },
        Err(Unpoured::Tight) => Did::Done,
        Err(Unpoured::Laden) => Did::Blocked(
            Because::Ours(String::from_str("too laden to put stacks together")),
        ),
        Err(Unpoured::Wait(did)) => did,
        Err(Unpoured::Turned(did)) => did,
    }
}

/// What pouring stacks together comes to for a run.
pub fn poured_for_run(did: &Did) -> (r: Poured)
    ensures
        r == match *did {
            Did::Acting => Poured::Acting,
            Did::Waiting(_) => Poured::Waiting,
            _ => Poured::Settled,
        },
{
    match did {
        Did::Acting => Poured::Acting,
        Did::Waiting(_) => Poured::Waiting,
        _ => Poured::Settled,
    }
}

} // verus!
