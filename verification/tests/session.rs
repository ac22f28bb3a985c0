use ac_client::client::{Client, Config, Event};
use ac_client::clock::{Moment, SECOND};
use ac_client::config::Growth;
use ac_client::items::{
    any_unread, find_items, item_stats, skill_name, spell_name, stats_of, to_look_over, unappraised_count,
    Appraising, Seen, Stowed, APPRAISAL_LOST, AT_ONCE,
};
use ac_client::logoff::{log_off_all, tick_length, LogOff, LOG_OFF_WAIT, LOOK_EVERY};
use ac_client::records::ItemStats;
use ac_client::single::Single;
use ac_client::state::{Driver, State};
use std::collections::HashSet;

const NOW: Moment = 100 * SECOND;

fn set(guids: &[u32]) -> HashSet<u32> {
    guids.iter().copied().collect()
}

#[test]
fn appraisals_are_queued_once_and_asked_a_few_at_a_time() {
    let mut a = Appraising::new();
    let pack: Vec<u32> = (1..=12).collect();
    let known = set(&pack);
    let mut done = set(&[3]);
    assert_eq!(unappraised_count(&pack, &done), 11);
    assert_eq!(a.appraise_all(&pack, &done), 11);
    assert_eq!(a.appraise_all(&pack, &done), 0, "all of them are queued");
    // Eight at once, and nothing more until one is answered.
    let asked = a.tick_appraise(&known, &done, NOW);
    assert_eq!(asked, vec![1, 2, 4, 5, 6, 7, 8, 9]);
    assert_eq!(asked.len(), AT_ONCE);
    assert!(a.tick_appraise(&known, &done, NOW).is_empty());
    done.insert(4);
    assert_eq!(a.tick_appraise(&known, &done, NOW), vec![10]);
    assert_eq!(a.appraise_all(&pack, &done), 0, "asked for is as good as queued");
    // One that is lost gives its place up; one that is gone is passed over.
    let late = NOW + APPRAISAL_LOST + 1;
    let fewer = set(&[12]);
    assert_eq!(a.tick_appraise(&fewer, &done, late), vec![12]);
    assert!(a.queue.is_empty());
    assert_eq!(a.inflight, vec![(12, late)]);
    // What was lost may be asked for again.
    assert_eq!(a.appraise_all(&pack, &done), 9);
}

#[test]
fn only_what_the_world_holds_is_queued_by_guid() {
    let mut a = Appraising::new();
    let known = set(&[1, 2, 3]);
    let done = set(&[2]);
    assert_eq!(a.appraise_many(&[1, 1, 2, 3, 9], &known, &done), 2);
    assert_eq!(a.queue, [1, 3]);
}

#[test]
fn what_might_be_sold_is_looked_over_first() {
    let stowed = |guid: u32, value: u32, wielded: bool| Stowed {
        guid,
        value,
        wielded,
    };
    let packs = [stowed(1, 5, false), stowed(2, 0, false), stowed(3, 5, true), stowed(4, 5, false)];
    assert_eq!(to_look_over(&packs, &set(&[4])), vec![1]);
    assert!(any_unread(&packs, &set(&[4])));
    assert!(any_unread(&packs, &set(&[1, 4])), "the one in use");
    assert!(!any_unread(&packs, &set(&[1, 3, 4])));
}

fn item(name: &str) -> ItemStats {
    ItemStats {
        name: name.into(),
        ..Default::default()
    }
}

#[test]
fn a_thing_is_shown_as_well_as_it_is_known() {
    let seen = |own_spell: u32| {
        Some(Seen {
            stats: item("Scroll"),
            own_spell,
        })
    };
    let spell = || spell_name(None, None, 27);
    assert!(stats_of(None, None, None, spell()).is_none());
    let scroll = stats_of(seen(27), None, None, spell()).unwrap();
    assert_eq!(scroll.spells, vec!["spell 27".to_string()]);
    assert!(stats_of(None, seen(0), None, spell()).unwrap().spells.is_empty());
    let told = stats_of(seen(27), None, Some(item("Scroll of Flame Bolt")), spell()).unwrap();
    assert_eq!(told.name, "Scroll of Flame Bolt");
    assert_eq!(skill_name(None, 9), "skill 9");
    assert_eq!(skill_name(Some("Sword".into()), 9), "Sword");
    assert_eq!(spell_name(None, Some("Flame Bolt".into()), 27), "Flame Bolt");
    assert_eq!(spell_name(Some("Flame Bolt I".into()), None, 27), "Flame Bolt I");
}

#[test]
fn a_pack_is_read_as_well_as_it_is_appraised() {
    let mut seen = item("Wand");
    seen.spells = vec!["Flame Bolt".into()];
    let carried = vec![
        (item("Sword"), Some(item("Fine Sword"))),
        (seen.clone(), None),
        (item("Tunic"), None),
    ];
    assert_eq!(item_stats(carried), vec![item("Fine Sword"), seen, item("Tunic")]);
    assert!(item_stats(vec![]).is_empty());
}

#[test]
fn the_items_that_match_are_found_in_order() {
    let items = vec![item("Sword"), item("Tunic"), item("Short Sword")];
    let found = find_items(items, |s: &ItemStats| s.name.contains("Sword"));
    let names: Vec<&str> = found.iter().map(|s| s.name.as_str()).collect();
    assert_eq!(names, ["Sword", "Short Sword"]);
    assert!(find_items(vec![item("Tunic")], |_: &ItemStats| false).is_empty());
}

#[test]
fn sessions_are_disconnected_once_all_are_off_or_the_wait_is_up() {
    assert_eq!(LOG_OFF_WAIT, 3 * SECOND);
    let wait = LogOff::Sleep(LOOK_EVERY);
    assert_eq!(log_off_all(NOW, NOW, LOG_OFF_WAIT, &[true, false]), wait);
    assert_eq!(log_off_all(NOW, NOW, LOG_OFF_WAIT, &[true, true]), LogOff::Disconnect);
    assert_eq!(log_off_all(NOW, NOW, LOG_OFF_WAIT, &[]), LogOff::Disconnect);
    let late = NOW + LOG_OFF_WAIT;
    assert_eq!(log_off_all(NOW, late - 1, LOG_OFF_WAIT, &[false]), wait);
    assert_eq!(log_off_all(NOW, late, LOG_OFF_WAIT, &[false]), LogOff::Disconnect);
    let half = Single { bits: 0.5f32.to_bits() };
    assert_eq!(tick_length(NOW, NOW + SECOND / 2), half);
}

#[test]
fn events_are_drained_once_with_what_autoplay_announced_behind() {
    let mut c = Client {
        config: Config {
            host: "127.0.0.1:1".into(),
            account: "acreborn".into(),
            password: "x".into(),
            character: None,
            auto_enter: true,
        },
        scene_block: None,
        autoplay: true,
        growth: Growth::default(),
        state: State::default(),
        appraising: Appraising::new(),
        events: vec![Event::Connected, Event::Refused(7)],
        announced: vec![Event::Noted("town run done".into())],
    };
    let drained = c.drain_events();
    assert!(matches!(drained[0], Event::Connected));
    assert!(matches!(drained[1], Event::Refused(7)));
    assert!(matches!(&drained[2], Event::Noted(s) if s == "town run done"));
    assert_eq!(drained.len(), 3);
    assert!(c.drain_events().is_empty());
    assert!(!c.placed());
    c.scene_block = Some(0xA9B4);
    assert!(c.placed());
    assert!(c.autoplay_drives_town_runs());
    assert_eq!(c.town_run_driver(), None);
    c.autoplay = false;
    assert!(!c.autoplay_drives_town_runs());
    assert_ne!(Driver::Hand, Driver::Autoplay);
}
