use ac_client::holdings::{
    bus_key, parse_bus_key, CharacterHoldings, BUS_PREFIX, ONLINE_FOR, REQUEST_TOPIC,
};
use ac_client::records::{
    kind_static, material_static, Double, HoldingRecord, ItemStats, LootAction, KINDS,
};
use ac_client::single::Single;
use ac_client::snapshot::{holdings_marks, holdings_snapshot, Carried, Holder};
use ac_client::store::{Hit, HoldingsStore};

const MELEE_WEAPON: u32 = 0x1;
const ARMOR: u32 = 0x2;
const CONTAINER: u32 = 0x200;
const CASTER: u32 = 0x8000;
const MATERIALS: [&str; 3] = ["Iron", "Oak", "Teak"];
const NOW: u64 = 1_700_000_000;

fn single(x: f32) -> Single {
    Single { bits: x.to_bits() }
}

fn double(x: f64) -> Double {
    Double { bits: x.to_bits() }
}

/// The word for the kind of an item type.
fn kind_name(item_type: u32) -> &'static str {
    match item_type {
        MELEE_WEAPON => "weapon",
        ARMOR => "armor",
        CONTAINER => "pack",
        CASTER => "caster",
        _ => "misc",
    }
}

/// A name as it can stand in a path.
fn file_safe(name: &str) -> String {
    name.replace('/', "_")
}

fn to_stats(r: &HoldingRecord) -> ItemStats {
    r.to_stats(kind_name(r.item_type), &MATERIALS)
}

fn sword() -> ItemStats {
    ItemStats {
        guid: 0x8000_0001,
        name: "Fine Sword".into(),
        wcid: 21,
        item_type: MELEE_WEAPON,
        kind: "weapon",
        stack: 1,
        wielded: true,
        valid_locations: 0x0010_0000,
        container: 0,
        value: 1200,
        burden: 300,
        workmanship: single(6.0),
        material: "Iron",
        appraised: true,
        damage_low: 8,
        damage_high: 14,
        damage_type: "Slashing".into(),
        damage_type_bits: 1,
        speed: 40,
        weapon_skill: "Sword".into(),
        weapon_skill_id: 9,
        attack_bonus: double(1.05),
        defense_bonus: double(1.0),
        spells: vec!["Blood Drinker IV".into(), "Epic Life Magic Aptitude".into()],
        wield_skill: "Sword".into(),
        wield_level: 250,
        wield_reqs: vec![(2, 9, 250)],
        mana: 500,
        max_mana: 800,
        spellcraft: 300,
        tinks: 2,
        bonded: true,
        ..Default::default()
    }
}

fn tunic(container: u32) -> ItemStats {
    ItemStats {
        guid: 0x8000_0002,
        name: "Leather Tunic".into(),
        item_type: ARMOR,
        kind: "armor",
        stack: 1,
        container,
        value: 300,
        burden: 500,
        ..Default::default()
    }
}

fn named(guid: u32, name: &str) -> HoldingRecord {
    HoldingRecord {
        guid,
        name: name.into(),
        ..Default::default()
    }
}

/// What a search for a word in the name finds.
fn search(store: &HoldingsStore, server: &str, word: &str, now: u64) -> Vec<Hit> {
    store.search(
        server,
        |s: &ItemStats| s.name.to_lowercase().contains(word),
        kind_name,
        &MATERIALS,
        now,
    )
}

#[test]
fn records_read_back_as_they_were_kept() {
    let s = sword();
    let r = HoldingRecord::from(&s);
    assert_eq!(r.material, "Iron");
    assert_eq!(r.armor_level, 0);
    assert_eq!(to_stats(&r), s);
    assert_eq!(r.copy(), r);
    // The words come from the tables.
    assert_eq!(kind_static("armor", "misc"), "armor");
    assert_eq!(kind_static("nonsense", kind_name(CASTER)), "caster");
    assert_eq!(material_static("", &MATERIALS), "");
    assert_eq!(material_static("Teak", &MATERIALS), "Teak");
    assert_eq!(material_static("Unobtainium", &MATERIALS), "?");
    for bit in 0..32 {
        let k = kind_name(1 << bit);
        assert!(KINDS.contains(&k), "kind {k} missing from KINDS");
    }
    // A record with nothing but a name still reads.
    let old = named(5, "Apple");
    assert_eq!(old.name, "Apple");
    assert_eq!(to_stats(&old).kind, "misc");
    // The size of its stacks is kept too.
    let tall = ItemStats {
        max_stack: 5_000,
        ..tunic(0)
    };
    assert_eq!(to_stats(&HoldingRecord::from(&tall)), tall);
}

#[test]
fn a_snapshot_that_names_no_world_is_known_and_matches_no_search() {
    let old = CharacterHoldings {
        server: String::new(),
        account: "accone".into(),
        character: "Alice".into(),
        guid: 1,
        taken_at: NOW,
        online: false,
        items: vec![named(10, "Old Dagger")],
    };
    let now_shape = CharacterHoldings {
        server: "one.example".into(),
        character: "Bob".into(),
        items: vec![named(11, "New Dagger")],
        ..old.clone()
    };
    let mut store = HoldingsStore::new();
    assert_eq!(store.merge_all(vec![old, now_shape]), (2, 1), "both were read, one of no world");
    assert!(store.get("", "accone", "Alice").is_some(), "the old one is not lost");
    assert!(store.get("one.example", "accone", "Bob").is_some());
    let hits = search(&store, "one.example", "dagger", NOW);
    assert_eq!(hits.len(), 1, "only the one that names this world");
    assert_eq!(hits[0].character, "Bob");
}

#[test]
fn one_world_at_a_time() {
    let here = CharacterHoldings {
        server: "play.coldeve.ac".into(),
        account: "acc".into(),
        character: "Blargerton".into(),
        guid: 1,
        taken_at: NOW,
        online: false,
        items: vec![named(10, "Diamond Scarab")],
    };
    // The same account, the same character name, another world.
    let there = CharacterHoldings {
        server: "127.0.0.1".into(),
        items: vec![named(11, "Diamond Scarab")],
        ..here.clone()
    };
    let mut store = HoldingsStore::new();
    store.put(here);
    store.put(there);
    assert_eq!(store.len(), 2, "the same name on two worlds is two");

    assert_eq!(search(&store, "play.coldeve.ac", "scarab", NOW).len(), 1);
    assert_eq!(search(&store, "127.0.0.1", "scarab", NOW).len(), 1);
    assert_eq!(store.counts("play.coldeve.ac"), (1, 1, 1));
    assert!(
        search(&store, "nowhere.example", "scarab", NOW).is_empty(),
        "a world with nobody on it holds nothing"
    );
    assert!(
        store.get("play.coldeve.ac", "acc", "Blargerton").is_some(),
        "found by all three"
    );
}

#[test]
fn what_a_character_carries_it_for_is_kept_with_the_record() {
    let mut r = HoldingRecord::from(&sword());
    assert_eq!(r.took, None, "nothing decided");
    r.took = Some(LootAction::Sell);
    assert_eq!(r.copy().took, Some(LootAction::Sell));
    let who = |character: &str| Holder {
        server: "one.example".into(),
        account: "AccOne".into(),
        character: character.into(),
        guid: None,
    };
    let items = [(sword(), Some(LootAction::Keep)), (tunic(1), None)];
    assert!(holdings_snapshot(who(""), &items, NOW, true).is_none(), "no name to file it under");
    let h = holdings_snapshot(who("Alice"), &items, NOW, true).unwrap();
    assert_eq!((h.guid, h.taken_at, h.online), (0, NOW, true));
    assert_eq!(h.items[0].took, Some(LootAction::Keep));
    assert_eq!(h.items[1].took, None);
    assert_eq!(to_stats(&h.items[0]), sword());
}

#[test]
fn keys_name_their_characters() {
    assert_eq!(
        bus_key(file_safe, "Play.Coldeve.AC", "FleetBot1", "Fleetbot One"),
        "holdings.play.coldeve.ac/fleetbot1/Fleetbot One"
    );
    assert_eq!(
        parse_bus_key("holdings.play.coldeve.ac/fleetbot1/Fleetbot One"),
        Some(("play.coldeve.ac", "fleetbot1", "Fleetbot One"))
    );
    // A key from before worlds were told apart names no world, and so matches
    // no scoped search.
    assert_eq!(
        parse_bus_key("holdings.fleetbot1/Fleetbot One"),
        Some(("", "fleetbot1", "Fleetbot One"))
    );
    assert_eq!(parse_bus_key("autoplay.mate"), None);
    assert_eq!(parse_bus_key("holdings."), None);
    assert_eq!(parse_bus_key("holdings.a//c/d"), Some(("a", "", "c")));
    // The world is written as it can stand in a path.
    assert_eq!(bus_key(file_safe, "A/B", "Acc", "C"), "holdings.a_b/acc/C");
    assert_eq!(
        HoldingsStore::path_for(file_safe, "A.Server", "Acc", "Ch/ar"),
        ("a.server".into(), "acc".into(), "Ch_ar.json".into())
    );
    assert_eq!((BUS_PREFIX, REQUEST_TOPIC), ("holdings.", "holdings.request"));
}

#[test]
fn a_search_says_what_each_hit_is_held_for() {
    let mut store = HoldingsStore::new();
    let mut taper = HoldingRecord::from(&ItemStats {
        guid: 0x8000_0021,
        name: "Prismatic Taper".into(),
        wcid: 691,
        kind: "comps",
        stack: 4059,
        max_stack: 5000,
        ..Default::default()
    });
    taper.took = Some(LootAction::Keep);
    store.put(CharacterHoldings {
        server: "one.example".into(),
        account: "accone".into(),
        character: "Alice".into(),
        guid: 0x5000_0001,
        taken_at: NOW,
        online: true,
        items: vec![taper, HoldingRecord::from(&sword())],
    });
    let hits = search(&store, "one.example", "taper", NOW);
    assert_eq!(hits.len(), 1);
    assert_eq!(hits[0].stats.stack, 4059);
    assert_eq!(hits[0].took, Some(LootAction::Keep));
    // The sword was never written down, which is not a decision to leave it: it
    // is no decision at all.
    let hits = search(&store, "one.example", "sword", NOW);
    assert_eq!(hits[0].took, None);
}

fn alice() -> CharacterHoldings {
    CharacterHoldings {
        server: "one.example".into(),
        account: "AccOne".into(),
        character: "Alice".into(),
        guid: 0x5000_0001,
        taken_at: NOW,
        online: true,
        items: vec![
            HoldingRecord::from(&sword()),
            HoldingRecord {
                guid: 0x8000_0010,
                name: "Pack".into(),
                item_type: CONTAINER,
                kind: "pack".into(),
                container: 0x5000_0001,
                ..Default::default()
            },
            HoldingRecord::from(&tunic(0x8000_0010)),
        ],
    }
}

fn bob() -> CharacterHoldings {
    CharacterHoldings {
        server: "one.example".into(),
        account: "acctwo".into(),
        character: "Bob".into(),
        guid: 0x5000_0002,
        taken_at: NOW - 1000,
        online: true,
        items: vec![HoldingRecord::from(&tunic(0x5000_0002))],
    }
}

#[test]
fn a_store_merges_counts_and_searches() {
    let now = NOW;
    let mut store = HoldingsStore::new();
    assert!(store.is_empty());
    assert!(store.dir().is_none());
    store.set_dir(Some("/cache/holdings".into()));
    assert_eq!(store.merge_all(vec![bob(), alice()]), (2, 0));
    assert_eq!(store.len(), 2);
    assert_eq!(store.dir(), Some("/cache/holdings"));
    assert_eq!(store.counts("one.example"), (2, 4, 3));
    let order: Vec<&str> = store.iter().iter().map(|h| h.character.as_str()).collect();
    assert_eq!(order, ["Alice", "Bob"], "in the order of their names");
    assert_eq!(store.on_server("ONE.example").len(), 2);
    // Bob's word is old: not online any more, whatever it says.
    assert!(store.get("one.example", "ACCONE", "Alice").unwrap().online_at(now));
    assert!(!store.get("one.example", "acctwo", "Bob").unwrap().online_at(now));

    let hits = search(&store, "one.example", "tunic", now);
    assert_eq!(hits.len(), 2);
    let places: Vec<(&str, &str)> = hits
        .iter()
        .map(|h| (h.character.as_str(), h.place.as_str()))
        .collect();
    assert_eq!(places, [("Alice", "Pack"), ("Bob", "pack")]);
    let worn = store.search(
        "one.example",
        |s: &ItemStats| s.wielded && s.spells.iter().any(|n| n.contains("Epic")),
        kind_name,
        &MATERIALS,
        now,
    );
    assert_eq!(worn.len(), 1);
    assert_eq!((worn[0].account.as_str(), worn[0].place.as_str()), ("AccOne", "worn"));
    assert!(worn[0].online);
    let strong = store.search(
        "one.example",
        |s: &ItemStats| s.damage_high > 20,
        kind_name,
        &MATERIALS,
        now,
    );
    assert!(strong.is_empty());
    assert_eq!(search(&store, "one.example", "", now).len(), 4);

    // Merging: the newer snapshot wins, an older one is dropped.
    let mut older = alice();
    older.taken_at = now - 5;
    older.items.clear();
    assert!(!store.merge(older));
    assert_eq!(store.get("one.example", "accone", "Alice").unwrap().items.len(), 3);
    let mut newer = alice();
    newer.taken_at = now + 5;
    newer.items.truncate(1);
    assert!(store.merge(newer));
    assert_eq!(store.get("one.example", "accone", "Alice").unwrap().items.len(), 1);
    let nobody = CharacterHoldings {
        character: String::new(),
        ..alice()
    };
    assert!(!store.merge(nobody.clone()));
    store.put(nobody);
    assert_eq!(store.len(), 2);
    // Offline keeps the items.
    let off = store.set_offline("one.example", "accone", "Alice", now).unwrap();
    assert!(!off.online);
    assert_eq!(off.taken_at, now + 5, "its word does not go back in time");
    assert_eq!(off.items.len(), 1);
    let kept = store.get("one.example", "accone", "Alice").unwrap();
    assert!(!kept.online);
    assert_eq!(kept.items.len(), 1);
    assert!(store.set_offline("one.example", "accone", "Carol", now).is_none());
}

#[test]
fn the_newest_word_stands_whatever_the_order() {
    let mut later = alice();
    later.taken_at = NOW + 1;
    later.items.clear();
    for first_is_later in [false, true] {
        let mut store = HoldingsStore::new();
        let (a, b) = if first_is_later {
            (later.clone(), alice())
        } else {
            (alice(), later.clone())
        };
        store.merge(a);
        store.merge(b);
        assert_eq!(store.len(), 1);
        assert_eq!(store.get("one.example", "accone", "Alice").unwrap().taken_at, NOW + 1);
    }
    // Of one moment, the word that is held stands.
    let mut store = HoldingsStore::new();
    store.merge(alice());
    let mut again = alice();
    again.items.clear();
    assert!(!store.merge(again));
    assert_eq!(store.get("one.example", "accone", "Alice").unwrap().items.len(), 3);
}

#[test]
fn a_word_fades_when_it_is_not_said_again() {
    let mut h = alice();
    assert!(h.online_at(NOW + ONLINE_FOR - 1));
    assert!(!h.online_at(NOW + ONLINE_FOR));
    assert!(h.online_at(NOW - 50), "a clock that runs behind");
    h.online = false;
    assert!(!h.online_at(NOW));
    assert_eq!(h.key(), ("one.example".into(), "accone".into(), "Alice".into()));
    assert_eq!(h.bus_key(file_safe), "holdings.one.example/accone/Alice");
    assert!(h.on("One.Example") && !h.on("two.example"));
    assert_eq!(h.unappraised(), 2);
    assert_eq!(h.copy(), h);
}

#[test]
fn the_marks_of_a_pack_do_not_depend_on_how_it_is_walked() {
    let item = |guid: u32, stack: u32| Carried {
        guid,
        container: Some(1),
        wielder: None,
        stack,
        appraised: false,
    };
    let a = [item(3, 1), item(2, 5)];
    let b = [item(2, 5), item(3, 1)];
    assert_eq!(holdings_marks(&a), holdings_marks(&b));
    assert_eq!(holdings_marks(&a)[0].guid, 2);
    assert_eq!((holdings_marks(&a)[0].container, holdings_marks(&a)[0].wielder), (1, 0));
    // A stack grown, a thing moved or appraised is another sign.
    assert_ne!(holdings_marks(&a), holdings_marks(&[item(3, 1), item(2, 6)]));
    let seen = Carried {
        appraised: true,
        ..item(3, 1)
    };
    assert_ne!(holdings_marks(&a), holdings_marks(&[seen, item(2, 5)]));
}
