use der_des_ders::command::{number_of, parse_command, split_words};
use der_des_ders::engine::{blockade_gain, default_initiative, uboot_loss};
use der_des_ders::sea::bonus_of;
use der_des_ders::turn::bid_of;
use der_des_ders::event::{event, events_of_year, year_of_turn};
use der_des_ders::fixtures::{EngineBuilder, PlayersBuilder};
use der_des_ders::tech::{research_succeeds, technology, zero_technologies, Technologies};
use der_des_ders::Effect;
use der_des_ders::GameEngine;
use der_des_ders::GameState;
use der_des_ders::HitsResult;
use der_des_ders::Input;
use der_des_ders::Nation::{
    AustriaHungary, Bulgaria, Egypt, France, FrenchAfrica, Germany, Greece, Italy, OttomanEmpire,
    Romania, Russia, Serbia,
};
use der_des_ders::NationState::{AtPeace, AtWar};
use der_des_ders::Offensive;
use der_des_ders::OffensiveOutcome;
use der_des_ders::Output;
use der_des_ders::Phase;
use der_des_ders::Side::{Allies, Empires};
use der_des_ders::StateChange;
use der_des_ders::TechnologyImprovement;
use der_des_ders::TechnologyType::{Air, Artillery, Attack, Defense};
use der_des_ders::{
    apply_event, determine_initiative, draw_events, improve_technologies, launch_offensives,
    sea_control, operational_level, reinforcements, run_turn, Nation, RobotIO, Side,
};

#[test]
fn dice_of_a_seed_come_in_a_fixed_order() {
    let mut engine = GameEngine::new(14);
    let rolls: Vec<u8> = (0..4).map(|_| engine.roll()).collect();
    assert_eq!(vec![6, 4, 2, 6], rolls);

    let mut engine = GameEngine::new(11);
    let rolls: Vec<u8> = (0..4).map(|_| engine.roll()).collect();
    assert_eq!(vec![2, 2, 4, 5], rolls);
}

#[test]
fn every_roll_shows_1_to_6() {
    for seed in 0..50 {
        let mut state = GameState::new(seed);
        for _ in 0..100 {
            let die = state.roll();
            assert!((1..=6).contains(&die));
        }
    }
}

#[test]
fn rolling_changes_nothing_but_the_random_source() {
    let mut state = GameState::new(7);
    let before = state.snapshot();
    state.roll();
    assert_eq!(before.nations, state.nations);
    assert_eq!(before.allies, state.allies);
    assert_eq!(before.empires, state.empires);
    assert_eq!(before.events_pool, state.events_pool);
    assert_ne!(before, state);
}

#[test]
fn same_seed_and_same_decisions_give_the_same_game() {
    let play = || {
        let mut engine = GameEngine::new(42);
        let mut players = PlayersBuilder::new()
            .with_input(Empires, Input::Select(Defense, 2))
            .with_input(Empires, Input::Pass)
            .with_input(Empires, Input::Offensive(Germany, France, 2))
            .with_input(Empires, Input::Pass)
            .with_input(Empires, Input::Reinforce(Germany, 1))
            .with_input(Empires, Input::Pass)
            .with_input(Empires, Input::Number(1))
            .with_input(Allies, Input::Pass)
            .with_input(Allies, Input::Offensive(Russia, Germany, 1))
            .build();
        run_turn(&mut players, &mut engine);
        run_turn(&mut players, &mut engine);
        (engine, players)
    };
    let (first_engine, first_players) = play();
    let (second_engine, second_players) = play();
    assert_eq!(first_engine, second_engine);
    assert_eq!(first_players.out(), second_players.out());
    assert_eq!(3, first_engine.state.current_turn);
}

#[test]
fn a_game_ends_after_the_last_turn() {
    let mut engine = GameEngine::new(3);
    let mut players = PlayersBuilder::new().build();
    let mut turns = 0;
    while !engine.game_ends() {
        let technologies = (
            engine.state.allies.technologies,
            engine.state.empires.technologies,
        );
        run_turn(&mut players, &mut engine);
        turns += 1;
        assert!(engine.state.allies.resources <= 20);
        assert!(engine.state.empires.resources <= 20);
        assert_eq!(technologies.0, engine.state.allies.technologies);
        assert_eq!(technologies.1, engine.state.empires.technologies);
        for nation in Nation::values() {
            assert!(engine.state.breakdown_level(&nation) <= nation.maximum_breakdown());
        }
        let mut ids: Vec<u8> = engine.state.events_pool.iter().map(|e| e.event_id).collect();
        let count = ids.len();
        ids.sort();
        ids.dedup();
        assert_eq!(count, ids.len());
        assert!(turns <= 14);
    }
    assert!(engine.state.current_turn == 15 || engine.state.winner.is_some());
}

#[test]
fn resources_stop_at_20() {
    let mut engine = GameEngine::new(1);
    engine.increase_pr(Empires, 255);
    assert_eq!(20, engine.state.resources_for(&Empires));
    engine.increase_pr(Empires, 1);
    assert_eq!(20, engine.state.resources_for(&Empires));
    assert_eq!(0, engine.state.resources_for(&Allies));
}

#[test]
fn decrease_pr_stops_at_0() {
    let mut state = GameState::new(1);
    state.increase_pr(Allies, 5);
    state.decrease_pr(Allies, 2);
    assert_eq!(3, state.resources_for(&Allies));
    state.decrease_pr(Allies, 200);
    assert_eq!(0, state.resources_for(&Allies));
}

#[test]
fn a_nation_at_its_highest_breakdown_is_not_reinforced() {
    let mut engine = EngineBuilder::new(14).with_resources(Empires, 10).build();
    engine.reinforce(Germany, 10);
    assert_eq!(AtWar(8), engine.state.nation_state(Germany));
    assert_eq!(10, engine.state.resources_for(&Empires));
}

#[test]
fn a_nation_that_entered_the_war_can_stand_one_above_its_initial_breakdown() {
    let mut engine = EngineBuilder::new(14).with_resources(Allies, 10).build();
    engine.play_events(&event(10).unwrap());
    assert_eq!(AtWar(5), engine.state.nation_state(Italy));
    engine.reinforce(Italy, 10);
    assert_eq!(AtWar(6), engine.state.nation_state(Italy));
    assert_eq!(9, engine.state.resources_for(&Allies));
}

#[test]
fn three_points_of_breakdown_cost_6_resources() {
    let mut engine = EngineBuilder::new(14)
        .with_resources(Allies, 7)
        .with_nation(Russia, AtWar(1))
        .build();
    engine.reinforce(Russia, 7);
    assert_eq!(AtWar(4), engine.state.nation_state(Russia));
    assert_eq!(1, engine.state.resources_for(&Allies));
}

#[test]
fn a_nation_at_peace_is_not_reinforced_and_takes_no_hits() {
    let mut engine = EngineBuilder::new(14).with_resources(Allies, 7).build();
    engine.reinforce(Italy, 3);
    assert_eq!(AtPeace, engine.state.nation_state(Italy));
    assert_eq!(7, engine.state.resources_for(&Allies));
    assert_eq!(HitsResult::NationNotAtWar(Italy), engine.apply_hits(&Italy, 1));
    assert_eq!(AtPeace, engine.state.nation_state(Italy));
}

#[test]
fn a_nation_that_surrendered_stays_at_peace() {
    let mut engine = EngineBuilder::new(14)
        .with_resources(Allies, 7)
        .with_nation(Serbia, AtWar(1))
        .build();
    assert_eq!(HitsResult::Surrenders(Serbia), engine.apply_hits(&Serbia, 3));
    assert_eq!(AtPeace, engine.state.nation_state(Serbia));
    assert_eq!(1, engine.state.state_of_war(Empires).vp);
    engine.reinforce(Serbia, 3);
    engine.collect_resources();
    let offensive = Offensive { initiative: Empires, from: AustriaHungary, to: Serbia, pr: 1 };
    assert_eq!(
        OffensiveOutcome::Hits(HitsResult::NationNotAtWar(Serbia)),
        engine.resolve_offensive_with(&offensive, &vec![6], 1)
    );
    assert_eq!(AtPeace, engine.state.nation_state(Serbia));
}

#[test]
fn no_hits_give_no_result() {
    let mut engine = EngineBuilder::new(14).build();
    assert_eq!(HitsResult::NoResult, engine.apply_hits(&France, 0));
    assert_eq!(AtWar(7), engine.state.nation_state(France));
}

#[test]
fn a_surrender_with_a_low_die_wins_the_game() {
    let mut state = GameState::new(5);
    assert_eq!(HitsResult::Winner(Allies), state.surrenders_with(&Germany, 7));
    assert_eq!(Some(Allies), state.winner);
    assert_eq!(8, state.state_of_war(Allies).vp);

    let mut state = GameState::new(5);
    assert_eq!(HitsResult::Surrenders(Germany), state.surrenders_with(&Germany, 8));
    assert_eq!(None, state.winner);
    assert_eq!(Allies, state.winner());
}

#[test]
fn hits_are_counted_against_the_attack_factor() {
    let mut engine = EngineBuilder::new(14).with_resources(Allies, 4).build();
    let offensive = Offensive { initiative: Allies, from: France, to: Germany, pr: 3 };
    assert_eq!(2, engine.hits_of(&offensive, &vec![3, 4, 6]));
    assert_eq!(
        OffensiveOutcome::Hits(HitsResult::Hits(Germany, 2)),
        engine.resolve_offensive_with(&offensive, &vec![3, 4, 6], 1)
    );
    assert_eq!(AtWar(6), engine.state.nation_state(Germany));
    assert_eq!(1, engine.state.resources_for(&Allies));
}

#[test]
fn an_offensive_without_resources_or_operational_level_is_not_fought() {
    let mut engine = EngineBuilder::new(14).with_resources(Allies, 2).build();
    let offensive = Offensive { initiative: Allies, from: France, to: Germany, pr: 3 };
    assert_eq!(
        OffensiveOutcome::NotEnoughResources(3, 2),
        engine.resolve_offensive(&offensive)
    );
    let offensive = Offensive { initiative: Allies, from: Serbia, to: AustriaHungary, pr: 2 };
    assert_eq!(
        OffensiveOutcome::OperationalLevelTooLow(1, 2),
        engine.resolve_offensive(&offensive)
    );
    assert_eq!(2, engine.state.resources_for(&Allies));
    assert_eq!(AtWar(8), engine.state.nation_state(Germany));
    // No die was rolled: the next roll is the first of the seed.
    assert_eq!(6, engine.roll());
}

#[test]
fn a_failed_research_costs_its_stake_and_leaves_the_level() {
    let mut engine = EngineBuilder::new(11) // die roll = 2
        .with_resources(Empires, 4)
        .on_turn(2)
        .build();
    assert_eq!(
        TechnologyImprovement::FailedTechnology(Attack, 2),
        engine.try_improve_technology(Empires, Attack, 2)
    );
    assert_eq!(zero_technologies(), engine.state.state_of_war(Empires).technologies);
    assert_eq!(2, engine.state.resources_for(&Empires));
}

#[test]
fn research_succeeds_when_die_and_stake_reach_the_threshold() {
    assert!(research_succeeds(2, 3, 4));
    assert!(!research_succeeds(2, 2, 4));
    assert!(research_succeeds(6, 1, 6));
    assert!(!research_succeeds(6, 1, 7));
    assert!(!research_succeeds(3, 0, 3));
}

#[test]
fn research_results_cover_all_cases() {
    let mut engine = EngineBuilder::new(14)
        .with_resources(Allies, 9)
        .with_technologies(Allies, Technologies { defense: 3, ..zero_technologies() })
        .build();
    assert_eq!(
        TechnologyImprovement::NoMoreTechnologyImprovement(Defense, 3),
        engine.try_improve_technology_with(Allies, Defense, 1, 6)
    );
    assert_eq!(
        TechnologyImprovement::TechnologyNotAvailable("Reco".to_string(), 1915, 1914),
        engine.try_improve_technology_with(Allies, Air, 1, 6)
    );
    assert_eq!(9, engine.state.resources_for(&Allies));
    let mut engine = EngineBuilder::new(14).with_resources(Allies, 9).on_turn(2).build();
    assert_eq!(
        TechnologyImprovement::ImprovedTechnology(Artillery, 1),
        engine.try_improve_technology_with(Allies, Artillery, 1, 4)
    );
    assert_eq!(
        TechnologyImprovement::FailedTechnology(Air, 2),
        engine.try_improve_technology_with(Allies, Air, 2, 1)
    );
    assert_eq!(
        Technologies { artillery: 1, ..zero_technologies() },
        engine.state.state_of_war(Allies).technologies
    );
    assert_eq!(6, engine.state.resources_for(&Allies));
}

#[test]
fn a_technology_not_yet_available_can_be_chosen_again() {
    let mut engine = EngineBuilder::new(14).with_resources(Allies, 4).build();
    let mut players = PlayersBuilder::new()
        .with_input(Allies, Input::Select(Attack, 1))
        .with_input(Allies, Input::Select(Attack, 1))
        .with_input(Allies, Input::Pass)
        .build();

    improve_technologies(Allies, &mut players, &mut engine);

    let not_yet = Output::TechnologyResult(TechnologyImprovement::TechnologyNotAvailable(
        "Combat Gas".to_string(),
        1915,
        1914,
    ));
    assert_eq!(
        vec![
            Output::ImproveTechnologies(vec![Attack, Defense, Artillery, Air]),
            not_yet.clone(),
            Output::ImproveTechnologies(vec![Attack, Defense, Artillery, Air]),
            not_yet,
            Output::ImproveTechnologies(vec![Attack, Defense, Artillery, Air]),
        ],
        players.allies_player.out()
    );
    assert_eq!(Phase::ImproveTechnologies(Allies), engine.state.phase);
}

#[test]
fn the_catalogue_of_technologies_stops_at_level_3_for_defense() {
    assert!(technology(Allies, Defense, 3).is_some());
    assert!(technology(Allies, Defense, 4).is_none());
    assert!(technology(Empires, Attack, 4).is_some());
    assert!(technology(Empires, Attack, 5).is_none());
    assert!(technology(Empires, Air, 0).is_none());
    let tanks = technology(Allies, Attack, 3).unwrap();
    assert_eq!(("Tanks", 1917, 6), (tanks.name, tanks.date, tanks.threshold));
}

#[test]
fn operational_level_rises_with_breakdown() {
    let levels: Vec<u8> = (0..=9).map(operational_level).collect();
    assert_eq!(vec![0, 1, 1, 1, 2, 2, 2, 3, 3, 3], levels);
}

#[test]
fn each_turn_has_its_year() {
    let years: Vec<u16> = (1..=14).map(year_of_turn).collect();
    assert_eq!(
        vec![1914, 1915, 1915, 1915, 1916, 1916, 1916, 1917, 1917, 1917, 1918, 1918, 1918, 1919],
        years
    );
}

#[test]
fn ties_for_the_initiative_are_settled_by_the_turn() {
    let sides: Vec<Side> = (1..=15).map(default_initiative).collect();
    assert_eq!(
        vec![
            Empires, Empires, Empires, Allies, Empires, Allies, Allies, Allies, Allies, Allies,
            Empires, Empires, Allies, Allies, Empires
        ],
        sides
    );
}

#[test]
fn the_bid_counts_in_full_though_only_what_is_held_is_paid() {
    let mut engine = EngineBuilder::new(14).with_resources(Allies, 1).on_turn(2).build();
    engine.determine_initiative_with(3, 0, 1, 3);
    assert_eq!(Allies, engine.state.initiative);
    assert_eq!(0, engine.state.resources_for(&Allies));
}

#[test]
fn submarines_and_blockade_follow_their_tables() {
    let losses: Vec<u8> = (1..=6).map(|die| uboot_loss(die, 0)).collect();
    assert_eq!(vec![0, 0, 0, 0, 2, 4], losses);
    assert_eq!(4, uboot_loss(3, 20));
    let gains: Vec<u8> = (1..=6).map(|die| blockade_gain(die, 0)).collect();
    assert_eq!(vec![3, 1, 0, 0, 0, 0], gains);
    assert_eq!(1, blockade_gain(1, 1));
}

#[test]
fn losses_and_gains_add_up_over_nested_changes() {
    let change = StateChange::MoreChanges(vec![
        StateChange::ChangeResources { side: Allies, pr: -3 },
        StateChange::ChangeResources { side: Allies, pr: 2 },
        StateChange::NoChange,
        StateChange::MoreChanges(vec![
            StateChange::ChangeResources { side: Empires, pr: 4 },
            StateChange::ChangeResources { side: Empires, pr: -1 },
            StateChange::ChangeResources { side: Allies, pr: -2 },
        ]),
    ]);
    assert_eq!(5, change.allies_loss());
    assert_eq!(4, change.empires_gain());
    assert_eq!(0, StateChange::NoChange.allies_loss());
    assert_eq!(128, StateChange::ChangeResources { side: Allies, pr: -128 }.allies_loss());
}

#[test]
fn a_list_of_two_changes_is_the_first_then_the_second() {
    let first = StateChange::ChangeResources { side: Allies, pr: 19 };
    let second = StateChange::ChangeResources { side: Allies, pr: -5 };
    let mut one_by_one = GameState::new(12);
    one_by_one.increase_pr(Allies, 3);
    one_by_one.apply_change(&first);
    one_by_one.apply_change(&second);
    let mut at_once = GameState::new(12);
    at_once.increase_pr(Allies, 3);
    at_once.apply_change(&StateChange::MoreChanges(vec![first, second]));
    assert_eq!(15, at_once.resources_for(&Allies));
    assert_eq!(one_by_one, at_once);
}

#[test]
fn the_pool_begins_with_the_events_of_1914() {
    let state = GameState::new(9);
    let ids: Vec<u8> = state.events_pool.iter().map(|e| e.event_id).collect();
    assert_eq!(vec![1, 2, 3, 4], ids);
    assert_eq!(state.events_pool, events_of_year(1914));
}

#[test]
fn events_are_drawn_without_replacement() {
    let mut state = GameState::new(9);
    let drawn = state.draw_events();
    assert_eq!(3, drawn.len());
    assert_eq!(1, state.events_pool.len());
    for event in drawn.iter() {
        assert!(!state.can_draw_event(event));
    }
    let left = state.events_pool[0];
    assert!(state.can_draw_event(&left));
    assert_eq!(vec![left], state.draw_events());
    assert!(state.draw_events().is_empty());
    state.add_event(left);
    assert_eq!(left, state.draw_event_at(0));
}

#[test]
fn a_new_year_purges_the_pool_and_fills_it() {
    let mut state = GameState::new(9);
    state.new_year(1914, 1915);
    let ids: Vec<u8> = state.events_pool.iter().map(|e| e.event_id).collect();
    assert_eq!(vec![5, 6, 7, 8, 9, 10, 11, 12, 13], ids);
    state.new_year(1915, 1916);
    let ids: Vec<u8> = state.events_pool.iter().map(|e| e.event_id).collect();
    assert_eq!(vec![7, 9, 10, 11, 13, 14, 15, 16], ids);
}

#[test]
fn events_change_what_they_say() {
    let mut engine = EngineBuilder::new(14).with_resources(Allies, 3).build();
    engine.play_events(&event(8).unwrap());
    assert_eq!(1, engine.state.resources_for(&Allies));
    engine.play_events(&event(11).unwrap());
    assert_eq!(AtWar(3), engine.state.nation_state(Bulgaria));
    engine.play_events(&event(1).unwrap());
    engine.play_events(&event(3).unwrap());
    assert!(engine.played_events.is_empty());
    engine.play_events(&event(4).unwrap());
    assert_eq!(1, engine.played_events.len());
    assert_eq!(1, engine.offensive_bonus(France, Germany));
    assert_eq!(1, engine.offensive_bonus(Germany, France));
    assert_eq!(0, engine.offensive_bonus(Russia, Germany));
    assert_eq!(Effect::EntersWar(Romania), event(16).unwrap().effect);
    assert_eq!(Effect::EntersWar(Greece), event(18).unwrap().effect);
    assert!(event(0).is_none());
    assert!(event(22).is_none());
}

#[test]
fn each_side_is_worth_what_it_holds() {
    let engine = EngineBuilder::new(14)
        .with_resources(Allies, 4)
        .with_technologies(Allies, Technologies { attack: 2, air: 1, ..zero_technologies() })
        .build();
    assert_eq!(4 + 9 + 125, engine.state.side_total(Allies));
    assert_eq!(110, engine.state.side_total(Empires));
    assert_eq!((28, 248), engine.state.valuation());
}

#[test]
fn the_value_of_a_state_lies_between_minus_1_and_1() {
    let mut engine = EngineBuilder::new(14).with_resources(Empires, 20).build();
    for nation in [France, Russia, Egypt, Serbia, FrenchAfrica] {
        engine.apply_hits(&nation, 9);
    }
    let (numerator, denominator) = engine.state.valuation();
    assert!(numerator < 0);
    assert!(-denominator <= numerator);
    let value = numerator as f64 / denominator as f64;
    assert!((-1.0..=1.0).contains(&value));
}

#[test]
fn nations_border_their_enemies_only() {
    for a in Nation::values() {
        assert!(!a.adjacent_to(&a));
        for b in Nation::values() {
            assert_eq!(a.adjacent_to(&b), b.adjacent_to(&a));
            if a.adjacent_to(&b) {
                assert_ne!(a.side(), b.side());
            }
        }
    }
    assert!(Egypt.adjacent_to(&OttomanEmpire));
    assert!(!FrenchAfrica.adjacent_to(&Germany));
    assert_eq!(Allies, Empires.other());
}

#[test]
fn the_phase_tells_who_is_to_play() {
    let mut engine = GameEngine::new(1);
    assert_eq!(None, engine.state.side_to_play());
    engine.set_phase(Phase::UBoot);
    assert_eq!(Some(Empires), engine.state.side_to_play());
    engine.set_phase(Phase::Blockade);
    assert_eq!(Some(Allies), engine.state.side_to_play());
    engine.set_phase(Phase::Reinforcements(Empires));
    assert_eq!(Some(Empires), engine.state.side_to_play());
    engine.set_phase(Phase::NewTurn);
    assert_eq!(None, engine.state.side_to_play());
}

#[test]
fn a_player_passes_when_its_script_has_run_out() {
    let mut player = RobotIO::new(&Allies);
    player.add_input(Input::Number(3));
    assert!(player.has_input());
    assert_eq!(Input::Number(3), player.input());
    assert!(!player.has_input());
    assert_eq!(Input::Pass, player.input());
    player.output(Output::ReinforceNations);
    assert_eq!(vec![Output::ReinforceNations], player.out());
}

#[test]
fn reinforcements_stop_when_the_side_holds_nothing() {
    let mut engine = EngineBuilder::new(14)
        .with_resources(Empires, 1)
        .with_nation(Germany, AtWar(2))
        .build();
    let mut players = PlayersBuilder::new()
        .with_input(Empires, Input::Number(1))
        .with_input(Empires, Input::Reinforce(Germany, 5))
        .with_input(Empires, Input::Reinforce(Germany, 5))
        .build();

    reinforcements(Empires, &mut players, &mut engine);

    assert_eq!(AtWar(3), engine.state.nation_state(Germany));
    assert_eq!(
        vec![Output::ReinforceNations, Output::ReinforceNations],
        players.empires_player.out()
    );
    assert!(players.empires_player.has_input());
}

#[test]
fn every_kind_of_decision_can_be_typed() {
    assert_eq!(Some(Input::Pass), parse_command(b"pass"));
    assert_eq!(Some(Input::Number(3)), parse_command(b"number 3"));
    assert_eq!(Some(Input::Select(Artillery, 2)), parse_command(b"select artillery 2"));
    assert_eq!(
        Some(Input::Offensive(France, Germany, 1)),
        parse_command(b"offensive france germany 1")
    );
    assert_eq!(
        Some(Input::Reinforce(AustriaHungary, 12)),
        parse_command(b"reinforce austriahungary 12")
    );
    assert_eq!(Some(Input::ApplyHit(FrenchAfrica)), parse_command(b"hit frenchafrica"));
    assert_eq!(Some(Input::Number(255)), parse_command(b"  number\t255 \r\n"));
    assert_eq!(Some(Input::Number(7)), parse_command(b"number 007"));
}

#[test]
fn a_line_that_writes_no_decision_gives_none() {
    assert_eq!(None, parse_command(b""));
    assert_eq!(None, parse_command(b"   "));
    assert_eq!(None, parse_command(b"Pass"));
    assert_eq!(None, parse_command(b"pass now"));
    assert_eq!(None, parse_command(b"number"));
    assert_eq!(None, parse_command(b"number 256"));
    assert_eq!(None, parse_command(b"number 0001"));
    assert_eq!(None, parse_command(b"number -1"));
    assert_eq!(None, parse_command(b"select navy 2"));
    assert_eq!(None, parse_command(b"offensive france prussia 1"));
    assert_eq!(None, parse_command(b"reinforce france"));
    assert_eq!(None, parse_command(b"hit"));
}

#[test]
fn words_are_the_runs_between_blanks() {
    assert_eq!(
        vec![b"ab".to_vec(), b"c".to_vec(), b"def".to_vec()],
        split_words(b" ab  c\tdef\n")
    );
    assert!(split_words(b" \n").is_empty());
    assert_eq!(Some(0), number_of(b"0"));
    assert_eq!(Some(199), number_of(b"199"));
    assert_eq!(None, number_of(b"999"));
    assert_eq!(None, number_of(b"1a"));
    assert_eq!(None, number_of(b""));
}

#[test]
fn the_schlieffen_plan_spends_the_resources_it_gives() {
    let mut engine = EngineBuilder::new(14).with_resources(Empires, 19).build();
    let mut players = PlayersBuilder::new().build();

    apply_event(&mut players, &mut engine, &event(3).unwrap());

    assert_eq!(18, engine.state.resources_for(&Empires));
    assert_eq!(players.allies_player.out(), players.empires_player.out());
}

#[test]
fn hits_that_the_script_does_not_allocate_are_not_inflicted() {
    let mut engine = EngineBuilder::new(14) // die roll = 6
        .with_resources(Empires, 4)
        .with_resources(Allies, 1)
        .build();
    let mut players = PlayersBuilder::new()
        .with_input(Empires, Input::Pass)
        .with_input(Allies, Input::Pass)
        .with_input(Allies, Input::ApplyHit(Egypt))
        .build();

    sea_control(Empires, &mut players, &mut engine);

    assert_eq!(0, engine.state.resources_for(&Allies));
    assert_eq!(4, engine.state.resources_for(&Empires));
    assert_eq!(AtWar(3), engine.state.nation_state(Egypt));
    assert_eq!(AtWar(7), engine.state.nation_state(France));
    assert_eq!(
        vec![
            Output::UBootResult(4),
            Output::SelectNationForHit,
            Output::SelectNationForHit,
        ],
        players.allies_player.out()
    );
    assert_eq!(Phase::UBoot, engine.state.phase);
}

#[test]
fn a_year_that_begins_twice_fills_the_pool_once() {
    let mut state = GameState::new(9);
    state.new_year(1913, 1914);
    let ids: Vec<u8> = state.events_pool.iter().map(|e| e.event_id).collect();
    assert_eq!(vec![1, 2, 3, 4], ids);
    state.new_year(1914, 1915);
    state.new_year(1914, 1915);
    let ids: Vec<u8> = state.events_pool.iter().map(|e| e.event_id).collect();
    assert_eq!(vec![5, 6, 7, 8, 9, 10, 11, 12, 13], ids);
    state.draw_event_at(2);
    state.new_year(1917, 1915);
    let ids: Vec<u8> = state.events_pool.iter().map(|e| e.event_id).collect();
    assert_eq!(vec![5, 6, 8, 9, 10, 11, 12, 13, 7], ids);
}

#[test]
fn an_event_that_the_pool_holds_is_not_added_again() {
    let mut state = GameState::new(9);
    let first = state.events_pool[0];
    state.add_event(first);
    assert_eq!(4, state.events_pool.len());
    let mut twin = first;
    twin.title = "Another title";
    state.add_event(twin);
    assert_eq!(4, state.events_pool.len());
    state.add_event(event(7).unwrap());
    let ids: Vec<u8> = state.events_pool.iter().map(|e| e.event_id).collect();
    assert_eq!(vec![1, 2, 3, 4, 7], ids);
}

#[test]
fn a_copy_of_a_state_rolls_the_same_dice() {
    let mut state = GameState::new(23);
    state.roll();
    let mut copy = state.snapshot();
    assert_eq!(state, copy);
    let rolls: Vec<u8> = (0..20).map(|_| state.roll()).collect();
    let again: Vec<u8> = (0..20).map(|_| copy.roll()).collect();
    assert_eq!(rolls, again);
    assert_eq!(state, copy);
}

#[test]
fn no_die_is_rolled_where_none_is_due() {
    let mut engine = EngineBuilder::new(14) // die roll = 6
        .with_initiative(Allies)
        .with_resources(Allies, 2)
        .with_resources(Empires, 2)
        .build();
    let mut players = PlayersBuilder::new()
        .with_input(Allies, Input::Select(Attack, 2))
        .with_input(Allies, Input::Pass)
        .with_input(Allies, Input::Offensive(Italy, AustriaHungary, 1))
        .with_input(Allies, Input::Offensive(France, AustriaHungary, 1))
        .with_input(Allies, Input::Offensive(France, Germany, 3))
        .with_input(Allies, Input::Offensive(Serbia, AustriaHungary, 2))
        .with_input(Allies, Input::Pass)
        .with_input(Allies, Input::Reinforce(France, 1))
        .with_input(Allies, Input::Pass)
        .build();
    let fresh = engine.state.snapshot();

    determine_initiative(&mut players, &mut engine);
    assert_eq!(Empires, engine.state.initiative);
    for _ in 0..4 {
        engine.state.draw_event_at(0);
    }
    let empty = engine.state.snapshot();
    draw_events(&mut players, &mut engine);
    assert!(engine.state.draw_events().is_empty());
    engine.collect_resources();
    engine.reduce_pr(Allies, 14);
    improve_technologies(Allies, &mut players, &mut engine);
    launch_offensives(Allies, &mut players, &mut engine);
    reinforcements(Allies, &mut players, &mut engine);
    engine.apply_hits(&France, 1);
    engine.apply_hits(&Italy, 1);
    engine.play_events(&event(10).unwrap());
    engine.apply(&event(1).unwrap());
    engine.apply_change(&StateChange::NoChange);
    engine.set_phase(Phase::NewTurn);

    assert_eq!(2, engine.state.resources_for(&Allies));
    assert_eq!(AtWar(6), engine.state.nation_state(France));
    assert_eq!(14, players.allies_player.out().len());
    assert_eq!(fresh.rng, engine.state.rng);
    assert_eq!(empty.rng, engine.state.rng);
    assert_eq!(6, engine.roll());
}

#[test]
fn no_category_gains_more_than_one_level_in_a_phase() {
    let mut engine = EngineBuilder::new(14) // die rolls = 6, 4, 2, 6
        .with_resources(Allies, 20)
        .on_turn(5)
        .build();
    let mut players = PlayersBuilder::new()
        .with_input(Allies, Input::Select(Defense, 3))
        .with_input(Allies, Input::Select(Defense, 3))
        .with_input(Allies, Input::Select(Attack, 3))
        .with_input(Allies, Input::Select(Attack, 3))
        .with_input(Allies, Input::Select(Air, 1))
        .with_input(Allies, Input::Select(Air, 6))
        .build();

    improve_technologies(Allies, &mut players, &mut engine);

    assert_eq!(
        Technologies { attack: 1, defense: 1, ..zero_technologies() },
        engine.state.state_of_war(Allies).technologies
    );
    assert_eq!(13, engine.state.resources_for(&Allies));
}

#[test]
fn a_bonus_is_no_more_than_what_is_held_and_a_bid_is_what_is_named() {
    assert_eq!(3, bonus_of(Input::Number(3), 4));
    assert_eq!(4, bonus_of(Input::Number(9), 4));
    assert_eq!(0, bonus_of(Input::Pass, 4));
    assert_eq!(9, bid_of(Input::Number(9)));
    assert_eq!(0, bid_of(Input::ApplyHit(France)));
}

#[test]
fn a_hit_is_taken_by_the_nation_that_is_named() {
    let mut engine = EngineBuilder::new(14).build();
    assert!(engine.take_hit(Input::ApplyHit(Russia)));
    assert!(engine.take_hit(Input::ApplyHit(Italy)));
    assert!(!engine.take_hit(Input::Pass));
    assert_eq!(AtWar(6), engine.state.nation_state(Russia));
    assert_eq!(AtPeace, engine.state.nation_state(Italy));
    assert_eq!(0, engine.state.state_of_war(Empires).vp);
    assert_eq!(6, engine.roll());
}
