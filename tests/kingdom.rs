use kingdom::character::{
    Character, Characters, Class, Pool, Request, RequestAvailability, DREAM_KEY,
};
use kingdom::decision::{Decision, DecisionType};
use kingdom::handlers::{
    initialize_filters, prince_festival, princess_disabled_filter, FilterId, Filters, HandlerId,
    ResponseHandlers, StoryState,
};
use kingdom::kingdom::{Kingdom, ResolveError};
use kingdom::state::{
    check_end_conditions, saturating_add, KingdomState, Mask, Outcome, StateUpdate, FINAL_DAY,
    MAX_HEART_SIZE, MIN_PROSPERITY,
};
use kingdom::time_state::{PhaseEvent, TimeState};

fn update(heart_size: i64, wealth: i64, happiness: i64) -> StateUpdate {
    StateUpdate {
        heart_size,
        wealth,
        happiness,
        ..StateUpdate::default()
    }
}

fn request(text: &str, filter: Option<&str>, handlers: &[&str]) -> Request {
    Request {
        text: text.to_string(),
        yes: update(1, 0, 0),
        no: update(-1, 0, 0),
        filter: filter.map(|f| f.to_string()),
        response_handlers: handlers.iter().map(|h| h.to_string()).collect(),
        availability: RequestAvailability::default(),
    }
}

fn character(name: &str, requests: Vec<Vec<Request>>) -> Character {
    Character {
        name: name.to_string(),
        class: Class::Royal,
        sprite_path: format!("characters/{name}"),
        requests,
        current_request: None,
    }
}

fn catalog(entries: Vec<(&str, Character)>) -> Characters {
    let mut c = Characters::new();
    for (k, ch) in entries {
        c.insert(k.to_string(), ch);
    }
    c
}

fn kingdom_in(phase: TimeState, entries: Vec<(&str, Character)>) -> Kingdom {
    let mut k = Kingdom::new(catalog(entries));
    k.phase = phase;
    k
}

#[test]
fn availability_truth_table() {
    for filtered in [false, true] {
        for used in [false, true] {
            let a = RequestAvailability { filtered, used };
            assert_eq!(a.is_available(), !(filtered || used));
        }
    }
    assert!(RequestAvailability::default().is_available());
}

#[test]
fn used_flag_survives_a_turn_and_filters() {
    let mut k = kingdom_in(
        TimeState::Day,
        vec![(
            "prince",
            character("Prince", vec![vec![request("festival", Some("prince_festival"), &[])]]),
        )],
    );
    k.characters.present(0, 0, 0);
    assert!(k.characters.table[0].1.requests[0][0].availability.used);
    k.update_state(&Decision::Yes("prince".to_string())).unwrap();
    assert!(k.characters.table[0].1.requests[0][0].availability.used);
    let unknown = Filters::run(0, &mut k.characters, &k.story);
    assert!(unknown.is_empty());
    assert!(k.characters.table[0].1.requests[0][0].availability.used);
    assert!(!k.characters.table[0].1.requests[0][0].availability.is_available());
}

#[test]
fn selection_never_repeats_current_petitioner() {
    for roll_character in 0..10 {
        for roll_request in 0..4 {
            let mut k = kingdom_in(
                TimeState::Day,
                vec![
                    ("prince", character("Prince", vec![vec![request("a", None, &[]), request("b", None, &[])]])),
                    ("nun", character("Nun", vec![vec![request("c", None, &[])]])),
                    ("baker", character("Baker", vec![vec![request("d", None, &[])]])),
                ],
            );
            k.characters.current_key = Some("prince".to_string());
            let (i, _) = k.choose_new_character_with(roll_character, roll_request).unwrap();
            assert_ne!(k.characters.table[i].0, "prince");
            assert_eq!(k.characters.current_key.as_deref(), Some(k.characters.table[i].0.as_str()));
        }
    }
}

#[test]
fn selection_follows_rolls_exactly() {
    let k = catalog(vec![
        ("prince", character("Prince", vec![vec![request("a", None, &[]), request("b", None, &[])]])),
        ("nun", character("Nun", vec![vec![request("c", None, &[])]])),
        (DREAM_KEY, character("Dream", vec![vec![request("d", None, &[])]])),
    ]);
    assert_eq!(k.candidates(Pool::Court, 0), vec![0, 1]);
    assert_eq!(k.candidates(Pool::Dream, 0), vec![2]);
    assert_eq!(k.pick(Pool::Court, 0, 0, 1), Some((0, 1)));
    assert_eq!(k.pick(Pool::Court, 0, 3, 5), Some((1, 0)));
    assert_eq!(k.pick(Pool::Court, 0, 2, 3), Some((0, 1)));
    assert_eq!(k.pick(Pool::Dream, 0, 7, 7), Some((2, 0)));
    assert_eq!(k.pick(Pool::Court, 1, 0, 0), None);
}

#[test]
fn second_verdict_is_refused() {
    let mut k = kingdom_in(
        TimeState::Day,
        vec![("prince", character("Prince", vec![vec![request("a", None, &[])]]))],
    );
    k.characters.present(0, 0, 0);
    let first = k.resolve(&Decision::Yes("prince".to_string())).unwrap();
    assert_eq!(first.heart_size, 4);
    let heart = k.state.heart_size;
    let second = k.resolve(&Decision::Yes("prince".to_string()));
    assert_eq!(second.unwrap_err(), ResolveError::NoCurrentRequest);
    assert_eq!(k.state.heart_size, heart);
    assert_eq!(k.state.heart_size, 4);
}

#[test]
fn verdict_for_unknown_petitioner_is_refused() {
    let mut k = kingdom_in(
        TimeState::Day,
        vec![("prince", character("Prince", vec![vec![request("a", None, &[])]]))],
    );
    k.characters.present(0, 0, 0);
    let before = k.state;
    let r = k.update_state(&Decision::No("nobody".to_string()));
    assert_eq!(r.unwrap_err(), ResolveError::UnknownPetitioner);
    assert_eq!(k.state, before);
    assert_eq!(k.characters.table[0].1.current_request, Some(0));
}

#[test]
fn verdict_without_presented_request_is_refused() {
    let mut k = kingdom_in(
        TimeState::Day,
        vec![("prince", character("Prince", vec![vec![request("a", None, &[])]]))],
    );
    let r = k.update_state(&Decision::Yes("prince".to_string()));
    assert_eq!(r.unwrap_err(), ResolveError::NoCurrentRequest);
    assert_eq!(k.state, KingdomState::new());
}

#[test]
fn handler_flag_unlocks_request_in_same_turn() {
    let mut dream_days = vec![vec![request("summon", None, &[])], vec![
        request("grasp", None, &["grasp_handler"]),
        request("entertain", Some("entertain_filter"), &[]),
    ]];
    dream_days[1][1].availability.filtered = true;
    let mut k = kingdom_in(TimeState::Night, vec![(DREAM_KEY, character("Dream", dream_days))]);
    k.state.day = 1;
    k.characters.present(0, 1, 0);
    let turn = k.update_state(&Decision::Yes(DREAM_KEY.to_string())).unwrap();
    assert!(k.story.dream.entertain);
    assert!(!k.characters.table[0].1.requests[1][1].availability.filtered);
    assert_eq!(turn.presented, Some((0, 1)));
}

#[test]
fn nun_refusal_unlocks_prince_festival() {
    let mut prince_days = vec![vec![request("festival", Some("prince_festival"), &[])]];
    prince_days[0][0].availability.filtered = true;
    let mut k = kingdom_in(
        TimeState::Day,
        vec![
            ("prince", character("Prince", prince_days)),
            ("nun", character("Nun", vec![vec![request("paganism", None, &["nun_paganism"])]])),
        ],
    );
    k.characters.present(1, 0, 0);
    let turn = k.update_state(&Decision::No("nun".to_string())).unwrap();
    assert_eq!(k.story.nun.made_paganism_illegal, Some(false));
    assert!(!k.characters.table[0].1.requests[0][0].availability.filtered);
    assert_eq!(turn.presented, Some((0, 0)));
}

#[test]
fn heart_failure_beats_prosperity() {
    let s = KingdomState {
        heart_size: 0,
        wealth: 100,
        happiness: 100,
        can_use_insight: false,
        last_decision: None,
        day: FINAL_DAY,
    };
    assert!(s.prosperity() >= MIN_PROSPERITY as i128);
    assert_eq!(check_end_conditions(&s, TimeState::Evening), Some(Outcome::Loss));
    let big = KingdomState { heart_size: MAX_HEART_SIZE, ..s };
    assert_eq!(check_end_conditions(&big, TimeState::Evening), Some(Outcome::Loss));
}

#[test]
fn end_conditions_on_final_evening() {
    let s = KingdomState {
        heart_size: 3,
        wealth: 80,
        happiness: 70,
        can_use_insight: false,
        last_decision: None,
        day: FINAL_DAY,
    };
    assert_eq!(check_end_conditions(&s, TimeState::Evening), Some(Outcome::Win));
    assert_eq!(check_end_conditions(&s, TimeState::Day), None);
    let poor = KingdomState { wealth: 79, ..s };
    assert_eq!(check_end_conditions(&poor, TimeState::Evening), Some(Outcome::Loss));
    let early = KingdomState { day: 0, ..s };
    assert_eq!(check_end_conditions(&early, TimeState::Evening), None);
}

#[test]
fn only_evening_to_night_increments_day() {
    let mut k = kingdom_in(
        TimeState::Idle,
        vec![("prince", character("Prince", vec![vec![request("a", None, &[])]]))],
    );
    k.characters.table[0].1.current_request = Some(0);
    assert_eq!(k.advance(PhaseEvent::Start), Some(TimeState::Morning));
    assert_eq!(k.state.day, 0);
    assert_eq!(k.advance(PhaseEvent::PoolExhausted), None);
    assert_eq!(k.advance(PhaseEvent::FadeFinished), Some(TimeState::Day));
    assert_eq!(k.state.day, 0);
    assert_eq!(k.advance(PhaseEvent::FadeFinished), None);
    assert_eq!(k.advance(PhaseEvent::PoolExhausted), Some(TimeState::Evening));
    assert_eq!(k.state.day, 0);
    assert_eq!(k.characters.table[0].1.current_request, Some(0));
    assert_eq!(k.advance(PhaseEvent::FadeFinished), Some(TimeState::Night));
    assert_eq!(k.state.day, 1);
    assert_eq!(k.characters.table[0].1.current_request, None);
    assert_eq!(k.advance(PhaseEvent::PoolExhausted), Some(TimeState::Morning));
    assert_eq!(k.state.day, 1);
    assert_eq!(k.phase, TimeState::Morning);
}

#[test]
fn prince_festival_scenario() {
    let mut k = kingdom_in(
        TimeState::Day,
        vec![(
            "prince",
            character("Prince", vec![vec![request("festival", None, &["prince_festival_handler"])]]),
        )],
    );
    assert_eq!(k.story.prince.approved_festival, None);
    k.characters.present(0, 0, 0);
    let heart = k.state.heart_size;
    let turn = k.update_state(&Decision::Yes("prince".to_string())).unwrap();
    assert_eq!(k.state.heart_size, heart + 1);
    assert_eq!(turn.resolution.heart_size, heart + 1);
    assert_eq!(k.story.prince.approved_festival, Some(true));
    assert_eq!(k.state.last_decision, Some(DecisionType::Yes));
}

#[test]
fn used_request_is_never_selected() {
    for _ in 0..1000 {
        let mut a_days = vec![vec![request("a", None, &[])]];
        a_days[0][0].availability.used = true;
        let mut k = kingdom_in(
            TimeState::Day,
            vec![
                ("prince", character("Prince", a_days)),
                ("nun", character("Nun", vec![vec![request("b", None, &[]), request("c", None, &[])]])),
            ],
        );
        let (i, slot) = k.choose_new_character().unwrap();
        assert_eq!(k.characters.table[i].0, "nun");
        assert!(slot < 2);
        assert_eq!(k.characters.table[i].1.current_request, Some(slot));
    }
}

#[test]
fn exhausted_day_moves_to_evening_and_night_to_morning() {
    let mut k = kingdom_in(
        TimeState::Day,
        vec![("prince", character("Prince", vec![vec![]]))],
    );
    assert_eq!(k.choose_new_character(), None);
    assert_eq!(k.phase, TimeState::Evening);
    let mut n = kingdom_in(TimeState::Night, vec![("prince", character("Prince", vec![vec![request("a", None, &[])]]))]);
    assert_eq!(n.choose_new_character(), None);
    assert_eq!(n.phase, TimeState::Morning);
}

#[test]
fn night_draws_only_from_the_dream() {
    let mut k = kingdom_in(
        TimeState::Night,
        vec![
            ("prince", character("Prince", vec![vec![request("a", None, &[])]])),
            (DREAM_KEY, character("Dream", vec![vec![request("d", None, &[]), request("e", None, &[])]])),
        ],
    );
    k.characters.current_key = Some(DREAM_KEY.to_string());
    let (i, _) = k.choose_new_character().unwrap();
    assert_eq!(k.characters.table[i].0, DREAM_KEY);
}

#[test]
fn random_choice_stays_among_candidates() {
    for _ in 0..200 {
        let mut k = kingdom_in(
            TimeState::Day,
            vec![
                ("prince", character("Prince", vec![vec![request("a", None, &[])]])),
                ("nun", character("Nun", vec![vec![request("b", None, &[])]])),
                ("baker", character("Baker", vec![vec![request("c", None, &[]), request("d", None, &[]), request("e", None, &[])]])),
            ],
        );
        let (i, slot) = k.choose_new_character().unwrap();
        assert!(i < 3);
        assert!(slot < k.characters.table[i].1.requests[0].len());
        assert!(k.characters.table[i].1.requests[0][slot].availability.used);
    }
}

#[test]
fn apply_request_decision_adds_deltas() {
    let mut s = KingdomState::new();
    let mut r = request("tax", None, &[]);
    r.yes = StateUpdate { heart_size: 1, wealth: 10, happiness: -5, can_use_insight: Some(true), ..StateUpdate::default() };
    r.no = update(-2, -3, 4);
    let u = s.apply_request_decision(&r, DecisionType::Yes);
    assert_eq!(u.wealth, 10);
    assert_eq!(s.heart_size, 4);
    assert_eq!(s.wealth, 60);
    assert_eq!(s.happiness, 45);
    assert!(s.can_use_insight);
    assert_eq!(s.last_decision, Some(DecisionType::Yes));
    s.apply_request_decision(&r, DecisionType::No);
    assert_eq!(s.heart_size, 2);
    assert_eq!(s.wealth, 57);
    assert_eq!(s.happiness, 49);
    assert!(s.can_use_insight);
    assert_eq!(s.last_decision, Some(DecisionType::No));
    assert_eq!(s.day, 0);
}

#[test]
fn prosperity_and_day_names() {
    let s = KingdomState::new();
    assert_eq!(s.prosperity(), 100);
    assert_eq!(KingdomState::calculate_prosperity(70, 85), 155);
    assert_eq!(KingdomState::calculate_prosperity(i64::MAX, i64::MAX), 2 * (i64::MAX as i128));
    let names: Vec<&str> = (0..5).map(|d| KingdomState { day: d, ..s }.day_name()).collect();
    assert_eq!(names, vec!["Spring", "Fall", "Winter", "Spring", "Spring"]);
}

#[test]
fn saturating_add_holds_at_the_ends() {
    assert_eq!(saturating_add(2, 3), 5);
    assert_eq!(saturating_add(i64::MAX, 1), i64::MAX);
    assert_eq!(saturating_add(i64::MIN, -1), i64::MIN);
    assert_eq!(saturating_add(i64::MIN, i64::MAX), -1);
}

#[test]
fn names_map_to_handlers_and_filters() {
    assert_eq!(HandlerId::from_name(&"prince_festival_handler".to_string()), Some(HandlerId::PrinceFestivalHandler));
    assert_eq!(HandlerId::from_name(&"kill_handler".to_string()), Some(HandlerId::KillHandler));
    assert_eq!(HandlerId::from_name(&"kill".to_string()), None);
    assert_eq!(FilterId::from_name(&"dream_done_filter".to_string()), Some(FilterId::DreamDoneFilter));
    assert_eq!(FilterId::from_name(&"didnt_fine_duchy".to_string()), Some(FilterId::DidntFineDuchy));
    assert_eq!(FilterId::from_name(&"prince_festival_handler".to_string()), None);
    assert_eq!(FilterId::Presented.target(), (DREAM_KEY, 0, 2));
    assert_eq!(FilterId::DidntFineDuchy.target(), ("west-duchess", 1, 0));
}

#[test]
fn handlers_record_verdicts() {
    let mut s = StoryState::new();
    let names: Vec<String> = ["smithy_strikers", "present_hand", "no_such_handler", "conditional_succ"]
        .iter()
        .map(|n| n.to_string())
        .collect();
    let run = ResponseHandlers::run(&names, Some(DecisionType::No), &mut s);
    assert_eq!(s.smithy.granted_strikers, Some(false));
    assert!(s.dream.no_choice);
    assert!(!s.dream.this_gift);
    assert!(!run.stinger);
    assert_eq!(run.unknown, vec!["no_such_handler".to_string()]);
    let run = ResponseHandlers::run(&names, Some(DecisionType::Yes), &mut s);
    assert_eq!(s.smithy.granted_strikers, Some(true));
    assert!(s.dream.this_gift);
    assert!(run.stinger);
    let mut t = StoryState::new();
    assert!(HandlerId::Succ.run(None, &mut t));
    assert!(t.dream.this_gift);
    assert!(!HandlerId::SmithyStrikers.run(None, &mut t));
    assert_eq!(t.smithy.granted_strikers, None);
}

#[test]
fn accord_weighs_prince_against_princess() {
    let mut s = StoryState::new();
    s.princess.made_alliance = Some(true);
    HandlerId::AccordHandler.run(Some(DecisionType::Yes), &mut s);
    assert!(s.dream.kill_princess);
    assert!(!s.dream.kill_prince);
    let mut t = StoryState::new();
    t.prince.approved_festival = Some(true);
    t.princess.made_alliance = Some(true);
    HandlerId::AccordHandler.run(Some(DecisionType::Yes), &mut t);
    assert!(t.dream.kill_prince);
    assert!(!t.dream.kill_princess);
}

#[test]
fn filter_pass_reports_unknown_names_and_skips_used() {
    let mut princess_days = vec![vec![request("a", None, &[]), request("disabled", Some("princess_disabled_filter"), &[])]];
    princess_days[0][0].availability.filtered = false;
    let mut used = request("x", Some("made_up_filter"), &[]);
    used.availability.used = true;
    let mut c = catalog(vec![
        ("princess", character("Princess", princess_days)),
        ("baker", character("Baker", vec![vec![request("y", Some("made_up_filter"), &[]), used]])),
    ]);
    let story = StoryState::new();
    let unknown = initialize_filters(&KingdomState::new(), &mut c, &story);
    assert_eq!(unknown, vec!["made_up_filter".to_string()]);
    assert!(c.table[0].1.requests[0][1].availability.filtered);
    let mut opened = StoryState::new();
    opened.prince.housed_disabled = Some(true);
    princess_disabled_filter(&mut c, &opened);
    assert!(!c.table[0].1.requests[0][1].availability.filtered);
}

#[test]
fn prince_festival_filter_follows_the_nun() {
    let mut c = catalog(vec![("prince", character("Prince", vec![vec![request("festival", None, &[])]]))]);
    let mut story = StoryState::new();
    prince_festival(&mut c, &story);
    assert!(c.table[0].1.requests[0][0].availability.filtered);
    story.nun.made_paganism_illegal = Some(true);
    prince_festival(&mut c, &story);
    assert!(c.table[0].1.requests[0][0].availability.filtered);
    story.nun.made_paganism_illegal = Some(false);
    prince_festival(&mut c, &story);
    assert!(!c.table[0].1.requests[0][0].availability.filtered);
    let mut empty = Characters::new();
    prince_festival(&mut empty, &story);
    assert!(empty.table.is_empty());
}

#[test]
fn stinger_and_mask_come_from_the_answer() {
    let mut r = request("gift", None, &["succ"]);
    r.no = StateUpdate { mask: Some(Mask::Sad), ..StateUpdate::default() };
    let mut k = kingdom_in(TimeState::Night, vec![(DREAM_KEY, character("Dream", vec![vec![r]]))]);
    k.characters.present(0, 0, 0);
    let turn = k.update_state(&Decision::No(DREAM_KEY.to_string())).unwrap();
    assert!(turn.resolution.stinger);
    assert_eq!(k.active_mask, Mask::Sad);
    assert!(k.story.dream.this_gift);
    assert_eq!(turn.presented, None);
    assert_eq!(k.phase, TimeState::Morning);
}

#[test]
fn start_runs_filters_then_morning() {
    let mut prince_days = vec![vec![request("festival", Some("prince_festival"), &[])]];
    prince_days[0][0].availability.filtered = false;
    let mut k = Kingdom::new(catalog(vec![("prince", character("Prince", prince_days))]));
    let unknown = k.start();
    assert!(unknown.is_empty());
    assert_eq!(k.phase, TimeState::Morning);
    assert!(k.characters.table[0].1.requests[0][0].availability.filtered);
    assert_eq!(k.check_end_conditions(), None);
}

#[test]
fn catalog_insert_replaces_same_key() {
    let mut c = Characters::new();
    c.insert("nun".to_string(), character("Nun", vec![]));
    c.insert("prince".to_string(), character("Prince", vec![]));
    c.insert("nun".to_string(), character("Sister", vec![]));
    assert_eq!(c.table.len(), 2);
    assert_eq!(c.find("nun"), Some(0));
    assert_eq!(c.table[0].1.name, "Sister");
    assert_eq!(c.find("prince"), Some(1));
    assert_eq!(c.find("baker"), None);
}

#[test]
fn character_request_helpers() {
    let mut ch = character("Prince", vec![vec![request("a", None, &[]), request("b", None, &[])]]);
    assert_eq!(ch.eligible_requests(0), vec![0, 1]);
    assert!(ch.request(0).is_none());
    ch.set_used(0, 1);
    assert_eq!(ch.request(0).map(|r| r.text.clone()), Some("b".to_string()));
    assert_eq!(ch.eligible_requests(0), vec![0]);
    assert_eq!(ch.pick_request(0, 5).map(|(i, _)| i), Some(0));
    assert_eq!(ch.sample_requests(0).map(|(i, _)| i), Some(0));
    assert!(ch.request(1).is_none());
    ch.clear_request();
    assert!(ch.request(0).is_none());
    assert!(ch.sample_requests(3).is_none());
}

#[test]
fn decision_kinds() {
    let y = Decision::Yes("a".to_string());
    let n = Decision::No("b".to_string());
    assert_eq!(DecisionType::from(&y), DecisionType::Yes);
    assert_eq!(DecisionType::from(&n), DecisionType::No);
    assert_eq!(n.key(), "b");
    assert_eq!(Mask::default(), Mask::Absent);
}

#[test]
fn filter_pass_twice_changes_nothing_more() {
    let mut c = catalog(vec![
        ("prince", character("Prince", vec![vec![request("festival", Some("prince_festival"), &[])]])),
        ("princess", character("Princess", vec![vec![request("a", None, &[]), request("b", Some("princess_disabled_filter"), &[])]])),
    ]);
    let mut story = StoryState::new();
    story.nun.made_paganism_illegal = Some(false);
    Filters::run(0, &mut c, &story);
    let first: Vec<bool> = c.table.iter().flat_map(|(_, ch)| ch.requests[0].iter().map(|r| r.availability.filtered)).collect();
    assert_eq!(first, vec![false, false, true]);
    Filters::run(0, &mut c, &story);
    let second: Vec<bool> = c.table.iter().flat_map(|(_, ch)| ch.requests[0].iter().map(|r| r.availability.filtered)).collect();
    assert_eq!(first, second);
    FilterId::PrinceFestival.apply(&story, &mut c);
    assert!(!c.table[0].1.requests[0][0].availability.filtered);
}
