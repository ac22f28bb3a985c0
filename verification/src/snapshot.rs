//! A character's own items, as a snapshot and as a sign of change.

use crate::holdings::CharacterHoldings;
use crate::order::{
    arranged, in_order, lemma_arranged_in_order, lemma_arranged_keeps, sort, sound, Ranked,
};
use crate::records::{kept_as, HoldingRecord, ItemStats, LootAction};
use vstd::prelude::*;
use vstd::string::*;

verus! {

/// What an item is kept as, with what it was picked up for.
pub open spec fn kept_for(s: ItemStats, took: Option<LootAction>, r: HoldingRecord) -> bool {
    kept_as(s, HoldingRecord { took: None, ..r }) && r.took == took
}

/// Who a snapshot is of, and when it is taken.
#[derive(Clone, Debug)]
pub struct Holder {
    pub server: String,
    pub account: String,
    pub character: String,
    pub guid: Option<u32>,
}

/// This character's items as a snapshot, `None` before its sheet has arrived (no
/// name to file it under). Each item comes with what it was picked up for.
pub fn holdings_snapshot(
    who: Holder,
    items: &[(ItemStats, Option<LootAction>)],
    now: u64,
    online: bool,
) -> (r: Option<CharacterHoldings>)
    ensures
        (r is None) == (who.character@.len() == 0),
        match r {
            None => true,
            Some(h) => {
                &&& h == (CharacterHoldings {
                    server: who.server,
                    account: who.account,
                    character: who.character,
                    guid: match who.guid {
                        Some(g) => g,
                        None => 0,
                    },
                    taken_at: now,
                    online,
                    items: h.items,
                })
                &&& h.items@.len() == items@.len()
                &&& forall|i: int|
                    0 <= i < items@.len() ==> kept_for(
                        items@[i].0,
                        items@[i].1,
                        #[trigger] h.items@[i],
                    )
            },
        },
{
    if who.character.as_str().is_empty() {
        return None;
    }
    let mut kept: Vec<HoldingRecord> = Vec::new();
    let mut i: usize = 0;
    while i < items.len()
        invariant
            i <= items.len(),
            kept@.len() == i,
            forall|k: int|
                0 <= k < i ==> kept_for(items@[k].0, items@[k].1, #[trigger] kept@[k]),
        decreases items.len() - i,
    {
        let mut r = HoldingRecord::from(&items[i].0);
        let ghost plain = r;
        r.took = items[i].1;
        assert(plain == (HoldingRecord { took: None, ..r }));
        kept.push(r);
        i = i + 1;
    }
    Some(
        CharacterHoldings {
            server: who.server,
            account: who.account,
            character: who.character,
            guid: match who.guid {
                Some(g) => g,
                None => 0,
            },
            taken_at: now,
            online,
            items: kept,
        },
    )
}

/// What about an item a reader of the snapshot could tell has changed.
#[derive(Clone, Copy, Debug, PartialEq, Eq, Hash, Structural)]
pub struct Mark {
    pub guid: u32,
    pub container: u32,
    pub wielder: u32,
    pub stack: u32,
    pub appraised: bool,
}

impl Ranked for Mark {
    open spec fn before(self, other: Mark) -> bool {
        if self.guid != other.guid {
            self.guid < other.guid
        } else if self.container != other.container {
            self.container < other.container
        } else if self.wielder != other.wielder {
            self.wielder < other.wielder
        } else if self.stack != other.stack {
            self.stack < other.stack
        } else {
            !self.appraised && other.appraised
        }
    }

    fn goes_before(&self, other: &Mark) -> (r: bool) {
        if self.guid != other.guid {
            self.guid < other.guid
        } else if self.container != other.container {
            self.container < other.container
        } else if self.wielder != other.wielder {
            self.wielder < other.wielder
        } else if self.stack != other.stack {
            self.stack < other.stack
        } else {
            !self.appraised && other.appraised
        }
    }
}

/// Something carried or worn.
#[derive(Clone, Copy, Debug)]
pub struct Carried {
    pub guid: u32,
    pub container: Option<u32>,
    pub wielder: Option<u32>,
    pub stack: u32,
    pub appraised: bool,
}

pub open spec fn or_none(n: Option<u32>) -> u32 {
    match n {
        Some(g) => g,
        None => 0,
    }
}

pub open spec fn mark_of(c: Carried) -> Mark {
    Mark {
        guid: c.guid,
        container: or_none(c.container),
        wielder: or_none(c.wielder),
        stack: c.stack,
        appraised: c.appraised,
    }
}

/// The marks of what is carried, before they are put in order.
pub open spec fn marks_of(carried: Seq<Carried>) -> Seq<Mark> {
    carried.map_values(|c: Carried| mark_of(c))
}

/// The marks that change when the inventory does: when an item is added,
/// removed, moved, wielded, stacked or appraised. They stand in order, so the
/// same inventory gives the same marks whatever the order it is walked in.
pub fn holdings_marks(carried: &[Carried]) -> (r: Vec<Mark>)
    ensures
        r@ == arranged(marks_of(carried@)),
{
    let mut marks: Vec<Mark> = Vec::new();
    let mut i: usize = 0;
    while i < carried.len()
        invariant
            i <= carried.len(),
            marks@ == marks_of(carried@).take(i as int),
        decreases carried.len() - i,
    {
        let c = carried[i];
        marks.push(
            Mark {
                guid: c.guid,
                container: match c.container {
                    Some(g) => g,
                    None => 0,
                },
                wielder: match c.wielder {
                    Some(g) => g,
                    None => 0,
                },
                stack: c.stack,
                appraised: c.appraised,
            },
        );
        i = i + 1;
        assert(marks@ =~= marks_of(carried@).take(i as int));
    }
    assert(marks@ =~= marks_of(carried@));
    sort(marks)
}

proof fn lemma_one_order(s: Seq<Mark>, t: Seq<Mark>)
    requires
        in_order(s),
        in_order(t),
        s.to_multiset() == t.to_multiset(),
    ensures
        s == t,
    decreases s.len(),
{
    broadcast use vstd::seq_lib::group_to_multiset_ensures;

    assert(s.len() == s.to_multiset().len());
    assert(t.len() == t.to_multiset().len());
    if s.len() == 0 {
        assert(s =~= t);
    } else {
        let (a, b) = (s.last(), t.last());
        assert(s.contains(a)) by {
            assert(s[s.len() - 1] == a);
        }
        assert(t.contains(b)) by {
            assert(t[t.len() - 1] == b);
        }
        assert(t.contains(a)) by {
            assert(s.to_multiset().count(a) > 0);
        }
        assert(s.contains(b)) by {
            assert(t.to_multiset().count(b) > 0);
        }
        let i = choose|i: int| 0 <= i < t.len() && t[i] == a;
        let j = choose|j: int| 0 <= j < s.len() && s[j] == b;
        assert(!t[t.len() - 1].before(t[i]) || i == t.len() - 1);
        assert(!s[s.len() - 1].before(s[j]) || j == s.len() - 1);
        assert(a == b);
        assert(s =~= s.drop_last().push(a));
        assert(t =~= t.drop_last().push(a));
        assert(s.drop_last().to_multiset() =~= t.drop_last().to_multiset()) by {
            assert(s.to_multiset() == s.drop_last().to_multiset().insert(a));
            assert(t.to_multiset() == t.drop_last().to_multiset().insert(a));
            let (m, n) = (s.drop_last().to_multiset(), t.drop_last().to_multiset());
            assert(m.insert(a).remove(a) =~= m);
            assert(n.insert(a).remove(a) =~= n);
        }
        lemma_one_order(s.drop_last(), t.drop_last());
    }
}

/// The marks of an inventory are the same whatever the order it is walked in,
/// and differ where anything of it does.
pub proof fn law_marks_tell_inventories_apart(a: Seq<Carried>, b: Seq<Carried>)
    ensures
        marks_of(a).to_multiset() == marks_of(b).to_multiset() <==> arranged(marks_of(a))
            == arranged(marks_of(b)),
{
    let (s, t) = (marks_of(a), marks_of(b));
    lemma_arranged_keeps(s);
    lemma_arranged_keeps(t);
    assert(sound::<Mark>());
    lemma_arranged_in_order(s);
    lemma_arranged_in_order(t);
    if s.to_multiset() == t.to_multiset() {
        lemma_one_order(arranged(s), arranged(t));
    }
}

} // verus!
