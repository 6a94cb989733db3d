use rustibia::spells::{
    group_icon_index, CooldownOverlay, CooldownState, PlayerStatus, PlayerStatuses, SpellBook,
    SpellCooldowns, SpellGroup, SpellId, SpellInfo,
};
use rustibia::text::timer_label;

const START: u64 = 10_000_000_000;

fn ms(millis: u64) -> u64 {
    millis * 1_000_000
}

/// What fraction of a cooldown has recovered.
fn recovered(state: CooldownState) -> f32 {
    1.0 - state.remaining_ns as f32 / state.length_ns as f32
}

#[test]
fn a_cooldown_reports_what_has_recovered_and_what_remains() {
    let mut cooldowns = SpellCooldowns::default();
    cooldowns.start_group(SpellGroup::Attack, START, ms(2000));
    let at = |elapsed| cooldowns.group(SpellGroup::Attack, START + ms(elapsed));

    let start = at(0).unwrap();
    assert_eq!(recovered(start), 0.0);
    assert_eq!(start.remaining_ns, ms(2000));
    let quarter = at(500).unwrap();
    assert_eq!(recovered(quarter), 0.25);
    assert_eq!(quarter.remaining_ns, ms(1500));
    assert_eq!(at(1999).map(|state| state.remaining_ns), Some(ms(1)));
    assert_eq!(at(2000), None);
    assert_eq!(at(2500), None);
    assert_eq!(cooldowns.group(SpellGroup::Healing, START), None);
}

#[test]
fn a_slot_follows_whichever_of_spell_and_group_ends_later() {
    let mut spell_later = SpellCooldowns::default();
    spell_later.start_spell(SpellId(2), START, ms(4000));
    spell_later.start_group(SpellGroup::Attack, START, ms(2000));
    let state = spell_later
        .spell(SpellId(2), SpellGroup::Attack, START + ms(1000))
        .unwrap();
    assert_eq!(recovered(state), 0.25);
    assert_eq!(state.remaining_ns, ms(3000));

    let mut group_later = SpellCooldowns::default();
    group_later.start_spell(SpellId(2), START, ms(1500));
    group_later.start_group(SpellGroup::Attack, START, ms(2000));
    let state = group_later
        .spell(SpellId(2), SpellGroup::Attack, START + ms(1000))
        .unwrap();
    assert_eq!(recovered(state), 0.5);
    assert_eq!(state.remaining_ns, ms(1000));
}

#[test]
fn a_slot_is_shaded_by_either_cooldown_alone() {
    let mut only_spell = SpellCooldowns::default();
    only_spell.start_spell(SpellId(2), START, ms(2000));
    assert!(only_spell.spell(SpellId(2), SpellGroup::Attack, START).is_some());
    assert!(only_spell.spell(SpellId(3), SpellGroup::Attack, START).is_none());

    let mut only_group = SpellCooldowns::default();
    only_group.start_group(SpellGroup::Attack, START, ms(2000));
    assert!(only_group.spell(SpellId(2), SpellGroup::Attack, START).is_some());
    assert!(only_group.spell(SpellId(2), SpellGroup::Healing, START).is_none());
}

#[test]
fn a_zero_length_starts_nothing() {
    let mut cooldowns = SpellCooldowns::default();
    cooldowns.start_spell(SpellId(2), START, 0);
    cooldowns.start_group(SpellGroup::Attack, START, 0);

    assert_eq!(cooldowns.spell(SpellId(2), SpellGroup::Attack, START), None);
}

#[test]
fn a_new_cooldown_replaces_the_old_one() {
    let mut cooldowns = SpellCooldowns::default();
    cooldowns.start_group(SpellGroup::Attack, START, ms(2000));
    cooldowns.start_group(SpellGroup::Attack, START + ms(500), ms(1000));

    assert_eq!(
        cooldowns
            .group(SpellGroup::Attack, START + ms(1000))
            .map(|state| state.remaining_ns),
        Some(ms(500))
    );
}

#[test]
fn a_cooldown_that_runs_past_the_clock_ends_at_its_top() {
    let mut cooldowns = SpellCooldowns::default();
    cooldowns.start_group(SpellGroup::Support, u64::MAX - 5, 100);
    assert_eq!(
        cooldowns.group(SpellGroup::Support, u64::MAX - 5),
        Some(CooldownState { remaining_ns: 5, length_ns: 100 })
    );
    assert_eq!(cooldowns.group(SpellGroup::Support, u64::MAX), None);
}

fn a_spell(id: u16) -> SpellInfo {
    SpellInfo {
        id: SpellId(id),
        name: format!("Spell {id}"),
        words: format!("words {id}"),
        level: 8,
        icon: 6,
        aimable: false,
        group: SpellGroup::Healing,
    }
}

#[test]
fn group_ids_match_the_server() {
    assert_eq!(SpellGroup::from_id(0), Some(SpellGroup::Attack));
    assert_eq!(SpellGroup::from_id(1), Some(SpellGroup::Healing));
    assert_eq!(SpellGroup::from_id(2), Some(SpellGroup::Support));
    assert_eq!(SpellGroup::from_id(3), None);
}

#[test]
fn every_group_round_trips_through_its_index() {
    for group in SpellGroup::all() {
        assert_eq!(SpellGroup::from_id(group.index() as u8), Some(group));
    }
}

#[test]
fn a_book_that_has_not_arrived_is_not_an_empty_one() {
    assert!(SpellBook::default().spells().is_none());
    assert_eq!(SpellBook::new(Vec::new()).spells().map(|s| s.len()), Some(0));
}

#[test]
fn the_list_fills_the_book() {
    let book = SpellBook::new(vec![a_spell(1), a_spell(4)]);

    let four = book.get(SpellId(4)).expect("spell 4 is in the book");
    assert_eq!(four.id, SpellId(4));
    assert_eq!(four.name, "Spell 4");
    assert!(book.get(SpellId(2)).is_none());
}

#[test]
fn the_timer_rounds_up_to_a_tenth() {
    assert_eq!(timer_label(ms(1940)), "2.0");
    assert_eq!(timer_label(ms(2000)), "2.0");
    assert_eq!(timer_label(ms(100)), "0.1");
    assert_eq!(timer_label(ms(10)), "0.1");
    assert_eq!(timer_label(ms(12_050)), "12.1");
    assert_eq!(timer_label(400_000), "0.1");
    assert_eq!(timer_label(1_000_400_000), "1.1");
}

#[test]
fn a_group_icon_is_its_cell_in_the_coloured_row() {
    assert_eq!(group_icon_index(SpellGroup::Attack), 4);
    assert_eq!(group_icon_index(SpellGroup::Healing), 5);
    assert_eq!(group_icon_index(SpellGroup::Support), 6);
}

#[test]
fn a_cooling_overlay_is_shaded_and_timed_then_cleared_when_ready() {
    let mut cooldowns = SpellCooldowns::default();
    cooldowns.start_group(SpellGroup::Attack, 0, ms(2000));
    let tracks = CooldownOverlay::Spell {
        id: SpellId(2),
        group: SpellGroup::Attack,
    };

    let state = tracks.state(&cooldowns, ms(500)).expect("still cooling");
    assert_eq!(recovered(state), 0.25);
    assert_eq!(timer_label(state.remaining_ns), "1.5");

    assert_eq!(tracks.state(&cooldowns, ms(2000)), None);
    assert_eq!(
        CooldownOverlay::Group(SpellGroup::Attack).state(&cooldowns, ms(500)),
        Some(state)
    );
}

#[test]
fn each_status_is_the_bit_the_server_sends() {
    assert_eq!(PlayerStatus::LogoutBlock.bit(), 1);
    assert_eq!(PlayerStatus::Hungry.bit(), 1 << 1);
    assert_eq!(PlayerStatus::Paralysed.bit(), 1 << 2);
    assert_eq!(PlayerStatus::Burning.bit(), 1 << 3);
    assert_eq!(PlayerStatus::Poisoned.bit(), 1 << 4);
    assert_eq!(PlayerStatus::Electrified.bit(), 1 << 5);
    assert_eq!(PlayerStatus::Hasted.bit(), 1 << 6);
    assert_eq!(PlayerStatus::MagicShield.bit(), 1 << 7);
}

#[test]
fn all_is_in_bit_order() {
    for (index, status) in PlayerStatus::all().into_iter().enumerate() {
        assert_eq!(status as usize, index);
        assert_eq!(status.bit(), 1 << index);
    }
}

#[test]
fn contains_only_the_statuses_whose_bits_are_set() {
    let statuses = PlayerStatuses(PlayerStatus::Hungry.bit() | PlayerStatus::Burning.bit());

    let present: Vec<_> = PlayerStatus::all()
        .into_iter()
        .filter(|status| statuses.contains(*status))
        .collect();

    assert_eq!(present, [PlayerStatus::Hungry, PlayerStatus::Burning]);
}

#[test]
fn a_bit_the_client_does_not_know_is_no_status() {
    let statuses = PlayerStatuses(1 << 8);

    assert!(PlayerStatus::all()
        .into_iter()
        .all(|status| !statuses.contains(status)));
}
