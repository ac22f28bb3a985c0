//! Every character's inventory, on every account, in one place, so that one can
//! find which character holds what.
//!
//! A character is named by world, account and character, all three: the same
//! account holds characters on more than one world, and two worlds can hold the
//! same name. Every search is scoped to one world, because there is no way to
//! move an item between them.

use crate::records::{same_record, HoldingRecord};
use crate::text::{
    alike, cat3, cat4, lemma_one_part, lemma_parts_join, lemma_precedes_irreflexive,
    lemma_precedes_total, lemma_precedes_transitive, parts, precedes, said, same, same_fold,
    small_text, split, stands_first,
};
use vstd::prelude::*;
use vstd::string::*;

verus! {

/// The keys that snapshots are published under start with this.
pub const BUS_PREFIX: &'static str = "holdings.";

/// The topic a window posts on to ask every online session to appraise its
/// unappraised items and publish again.
pub const REQUEST_TOPIC: &'static str = "holdings.request";

/// A snapshot that says it is online counts as online for this long after it
/// was taken, in seconds: sessions publish at least this often while they live,
/// so a process that died without saying goodbye fades out.
pub const ONLINE_FOR: u64 = 90;

/// The key of one character's snapshot, the world as it is written in paths.
pub open spec fn key_of(world: Seq<char>, account: Seq<char>, character: Seq<char>) -> Seq<char> {
    BUS_PREFIX@ + world + "/"@ + (small_text(account) + "/"@ + character)
}

/// The key of one character's snapshot: prefix, world, account and character.
/// `safe` writes a name as it can stand in a path.
pub fn bus_key<F: Fn(&str) -> String>(safe: F, server: &str, account: &str, character: &str) -> (r:
    String)
    requires
        forall|x: &str| #[trigger] safe.requires((x,)),
    ensures
        exists|x: &str, world: String|
            x@ == small_text(server@) && #[trigger] safe.ensures((x,), world) && r@ == key_of(
                world@,
                account@,
                character@,
            ),
{
    let small = server.to_ascii_lowercase();
    let world = safe(small.as_str());
    let held_by = account.to_ascii_lowercase();
    let rest = cat3(held_by.as_str(), "/", character);
    cat4(BUS_PREFIX, world.as_str(), "/", rest.as_str())
}

/// What a key names, if it is one of a snapshot.
pub open spec fn named_by(key: Seq<char>) -> Option<(Seq<char>, Seq<char>, Seq<char>)> {
    if !BUS_PREFIX@.is_prefix_of(key) {
        None
    } else {
        let p = parts(key.skip(BUS_PREFIX@.len() as int), '/');
        if p.len() >= 3 {
            Some((p[0], p[1], p[2]))
        } else if p.len() == 2 {
            Some((seq![], p[0], p[1]))
        } else {
            None
        }
    }
}

/// The world, account and character a key names, if it is one of a snapshot's.
/// A key from before worlds were told apart has two parts, and is read as a
/// character on no particular world, which no scoped search will match.
pub fn parse_bus_key(key: &str) -> (r: Option<(&str, &str, &str)>)
    ensures
        match r {
            Some((server, account, character)) => named_by(key@) == Some(
                (server@, account@, character@),
            ),
            None => named_by(key@) is None,
        },
{
    let n: usize = BUS_PREFIX.unicode_len();
    let m: usize = key.unicode_len();
    if m < n {
        return None;
    }
    if !same(key.substring_char(0, n), BUS_PREFIX) {
        proof {
            if BUS_PREFIX@.is_prefix_of(key@) {
                assert(key@.subrange(0, n as int) =~= BUS_PREFIX@);
            }
        }
        return None;
    }
    let rest = key.substring_char(n, m);
    assert(rest@ =~= key@.skip(n as int));
    assert(BUS_PREFIX@.is_prefix_of(key@)) by {
        assert(BUS_PREFIX@ == key@.subrange(0, n as int));
    }
    let p = split(rest, '/');
    assert(p@.len() == said(p@).len());
    if p.len() >= 3 {
        Some((p[0], p[1], p[2]))
    } else if p.len() == 2 {
        let none: &str = "";
        proof {
            reveal_strlit("");
            assert(none@ =~= seq![]);
        }
        Some((none, p[0], p[1]))
    } else {
        None
    }
}

/// A key names what it was made from, where none of the three holds the sign
/// that stands between them.
pub proof fn law_a_key_names_its_character(
    world: Seq<char>,
    account: Seq<char>,
    character: Seq<char>,
)
    requires
        !world.contains('/'),
        !account.contains('/'),
        !character.contains('/'),
    ensures
        named_by(key_of(world, account, character)) == Some(
            (world, small_text(account), character),
        ),
{
    let key = key_of(world, account, character);
    let held_by = small_text(account);
    let rest = key.skip(BUS_PREFIX@.len() as int);
    reveal_strlit("/");
    assert forall|i: int| 0 <= i < held_by.len() implies held_by[i] != '/' by {
        assert(account[i] != '/');
    }
    assert(BUS_PREFIX@.is_prefix_of(key)) by {
        assert(BUS_PREFIX@ =~= key.subrange(0, BUS_PREFIX@.len() as int));
    }
    assert(rest =~= world.push('/') + (held_by.push('/') + character));
    lemma_parts_join(world, held_by.push('/') + character, '/');
    lemma_parts_join(held_by, character, '/');
    lemma_one_part(world, '/');
    lemma_one_part(held_by, '/');
    lemma_one_part(character, '/');
}

/// What names one character for good: the world, the account and the name.
pub type Key = (String, String, String);

/// The three names of a character.
pub type Names = (Seq<char>, Seq<char>, Seq<char>);

/// The three names under which a character is filed.
pub open spec fn filed_as(server: Seq<char>, account: Seq<char>, character: Seq<char>) -> Names {
    (small_text(server), small_text(account), character)
}

/// Which names stand first.
pub open spec fn names_before(a: Names, b: Names) -> bool {
    if a.0 != b.0 {
        precedes(a.0, b.0)
    } else if a.1 != b.1 {
        precedes(a.1, b.1)
    } else {
        precedes(a.2, b.2)
    }
}

pub proof fn lemma_names_in_order(a: Names, b: Names, c: Names)
    ensures
        !names_before(a, a),
        names_before(a, b) && names_before(b, c) ==> names_before(a, c),
        names_before(a, b) || names_before(b, a) || a == b,
        !(names_before(a, b) && names_before(b, a)),
{
    lemma_precedes_irreflexive(a.2);
    lemma_three(a.0, b.0, c.0);
    lemma_three(a.1, b.1, c.1);
    lemma_three(a.2, b.2, c.2);
}

proof fn lemma_three(a: Seq<char>, b: Seq<char>, c: Seq<char>)
    ensures
        precedes(a, b) && precedes(b, c) ==> precedes(a, c),
        precedes(a, b) || precedes(b, a) || a == b,
        !(precedes(a, b) && precedes(b, a)),
{
    if precedes(a, b) && precedes(b, c) {
        lemma_precedes_transitive(a, b, c);
    }
    if !precedes(a, b) && !precedes(b, a) {
        lemma_precedes_total(a, b);
    }
    if precedes(a, b) && precedes(b, a) {
        lemma_precedes_transitive(a, b, a);
        lemma_precedes_irreflexive(a);
    }
}

pub open spec fn names_of(key: Key) -> Names {
    (key.0@, key.1@, key.2@)
}

pub(crate) fn key_before(a: &Key, b: &Key) -> (r: bool)
    ensures
        r == names_before(names_of(*a), names_of(*b)),
{
    if !same(a.0.as_str(), b.0.as_str()) {
        stands_first(a.0.as_str(), b.0.as_str())
    } else if !same(a.1.as_str(), b.1.as_str()) {
        stands_first(a.1.as_str(), b.1.as_str())
    } else {
        stands_first(a.2.as_str(), b.2.as_str())
    }
}

pub(crate) fn same_key(a: &Key, b: &Key) -> (r: bool)
    ensures
        r == (names_of(*a) == names_of(*b)),
{
    same(a.0.as_str(), b.0.as_str()) && same(a.1.as_str(), b.1.as_str()) && same(
        a.2.as_str(),
        b.2.as_str(),
    )
}

pub(crate) fn make_key(server: &str, account: &str, character: &str) -> (r: Key)
    ensures
        names_of(r) == filed_as(server@, account@, character@),
{
    (server.to_ascii_lowercase(), account.to_ascii_lowercase(), String::from_str(character))
}

/// One character's items as last seen.
#[derive(Clone, Debug, Default, PartialEq)]
pub struct CharacterHoldings {
    /// The world it is on. Empty in one written before worlds were told apart.
    pub server: String,
    pub account: String,
    pub character: String,
    /// The character's guid, 0 when unknown.
    pub guid: u32,
    /// When the snapshot was taken, in seconds.
    pub taken_at: u64,
    /// The session was in the world when it was taken.
    pub online: bool,
    pub items: Vec<HoldingRecord>,
}

/// How many of the first `n` items are not appraised.
pub open spec fn unknown_among(items: Seq<HoldingRecord>, n: nat) -> nat
    decreases n,
{
    if n == 0 {
        0
    } else {
        unknown_among(items, (n - 1) as nat) + if items[n - 1].appraised {
            0nat
        } else {
            1nat
        }
    }
}

/// The name of the first item of some guid, from `i` on.
pub open spec fn named_pack(items: Seq<HoldingRecord>, guid: u32, i: int) -> Option<String>
    decreases items.len() - i,
{
    if i >= items.len() {
        None
    } else if items[i].guid == guid {
        Some(items[i].name)
    } else {
        named_pack(items, guid, i + 1)
    }
}

/// Two snapshots hold the same.
pub open spec fn same_holdings(a: CharacterHoldings, b: CharacterHoldings) -> bool {
    &&& b.items@.len() == a.items@.len()
    &&& forall|i: int| 0 <= i < a.items@.len() ==> same_record(#[trigger] a.items@[i], b.items@[i])
    &&& b == (CharacterHoldings { items: b.items, ..a })
}

impl CharacterHoldings {
    pub open spec fn names(self) -> Names {
        filed_as(self.server@, self.account@, self.character@)
    }

    /// What it is filed under: world and account in lower case, the character
    /// as it is.
    pub fn key(&self) -> (r: Key)
        ensures
            names_of(r) == self.names(),
    {
        make_key(self.server.as_str(), self.account.as_str(), self.character.as_str())
    }

    /// The key it is published under.
    pub fn bus_key<F: Fn(&str) -> String>(&self, safe: F) -> (r: String)
        requires
            forall|x: &str| #[trigger] safe.requires((x,)),
        ensures
            exists|x: &str, world: String|
                x@ == small_text(self.server@) && #[trigger] safe.ensures((x,), world) && r@
                    == key_of(world@, self.account@, self.character@),
    {
        bus_key(safe, self.server.as_str(), self.account.as_str(), self.character.as_str())
    }

    pub open spec fn stands_on(self, server: Seq<char>) -> bool {
        alike(self.server@, server)
    }

    /// Whether this character is on a world, whatever the case of its name.
    pub fn on(&self, server: &str) -> (r: bool)
        ensures
            r == self.stands_on(server@),
    {
        same_fold(self.server.as_str(), server)
    }

    pub open spec fn spec_online_at(self, now: u64) -> bool {
        self.online && now - self.taken_at < ONLINE_FOR
    }

    /// Online as of `now`: said so, and said so recently enough.
    pub fn online_at(&self, now: u64) -> (r: bool)
        ensures
            r == self.spec_online_at(now),
    {
        self.online && (now < self.taken_at || now - self.taken_at < ONLINE_FOR)
    }

    /// How many of its items are not appraised.
    pub fn unappraised(&self) -> (r: usize)
        ensures
            r == unknown_among(self.items@, self.items@.len()),
            r <= self.items@.len(),
    {
        let mut n: usize = 0;
        let mut i: usize = 0;
        while i < self.items.len()
            invariant
                i <= self.items.len(),
                n <= i,
                n == unknown_among(self.items@, i as nat),
            decreases self.items.len() - i,
        {
            if !self.items[i].appraised {
                n = n + 1;
            }
            i = i + 1;
        }
        n
    }

    pub open spec fn spec_place_of(self, item: HoldingRecord) -> Seq<char> {
        if item.wielded {
            "worn"@
        } else if item.container == 0 || item.container == self.guid {
            "pack"@
        } else {
            match named_pack(self.items@, item.container, 0) {
                Some(name) => name@,
                None => "pack"@,
            }
        }
    }

    /// Where an item sits, in words: "worn", "pack" (the main pack) or the side
    /// pack's name.
    pub fn place_of(&self, item: &HoldingRecord) -> (r: String)
        ensures
            r@ == self.spec_place_of(*item),
    {
        if item.wielded {
            return String::from_str("worn");
        }
        if item.container == 0 || item.container == self.guid {
            return String::from_str("pack");
        }
        let mut i: usize = 0;
        while i < self.items.len()
            invariant
                i <= self.items.len(),
                !item.wielded,
                item.container != 0,
                item.container != self.guid,
                named_pack(self.items@, item.container, 0) == named_pack(
                    self.items@,
                    item.container,
                    i as int,
                ),
            decreases self.items.len() - i,
        {
            if self.items[i].guid == item.container {
                return self.items[i].name.clone();
            }
            i = i + 1;
        }
        String::from_str("pack")
    }

    /// The same snapshot again.
    pub fn copy(&self) -> (r: CharacterHoldings)
        ensures
            same_holdings(*self, r),
    {
        let mut items: Vec<HoldingRecord> = Vec::new();
        let mut i: usize = 0;
        while i < self.items.len()
            invariant
                i <= self.items.len(),
                items@.len() == i,
                forall|k: int| 0 <= k < i ==> same_record(#[trigger] self.items@[k], items@[k]),
            decreases self.items.len() - i,
        {
            items.push(self.items[i].copy());
            i = i + 1;
        }
        CharacterHoldings {
            server: self.server.clone(),
            account: self.account.clone(),
            character: self.character.clone(),
            guid: self.guid,
            taken_at: self.taken_at,
            online: self.online,
            items,
        }
    }
}

} // verus!
