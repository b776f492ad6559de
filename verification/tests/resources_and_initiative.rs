use der_des_ders::fixtures::{EngineBuilder, PlayersBuilder};
use der_des_ders::determine_initiative;
use der_des_ders::GameEngine;
use der_des_ders::Input::{Number};
use der_des_ders::Nation::{Bulgaria, Italy, Russia};
use der_des_ders::NationState::{AtWar};
use der_des_ders::Side::{Allies, Empires};

#[test]
fn adjusts_resources_given_a_side_and_some_amount() {
    let mut engine = GameEngine::new(12);
    engine.increase_pr(Allies, 4);
    assert_eq!(4, engine.state.state_of_war(Allies).resources);
    engine.reduce_pr(Allies, 3);
    assert_eq!(1, engine.state.state_of_war(Allies).resources);
}

#[test]
fn cannot_reduce_resources_below_0() {
    let mut engine = GameEngine::new(12);
    engine.reduce_pr(Allies, 3);
    assert_eq!(0, engine.state.state_of_war(Allies).resources);
}

#[test]
fn empires_has_initiative_on_first_turn() {
    let mut engine = EngineBuilder::new(12).build();
    let mut players = PlayersBuilder::new().build();

    determine_initiative(&mut players, &mut engine);

    assert_eq!(Empires, engine.state.initiative)
}

#[test]
fn allies_have_initiative_on_second_turn_given_they_bid_more_pr() {
    let mut engine = EngineBuilder::new(12).on_turn(2).build();
    let mut players = PlayersBuilder::new()
        .with_input(Allies, Number(2))
        .with_input(Empires, Number(1))
        .build();

    determine_initiative(&mut players, &mut engine);

    assert_eq!(Allies, engine.state.initiative)
}

#[test]
fn empires_have_initiative_on_second_turn_given_they_bid_more_pr() {
    let mut engine = EngineBuilder::new(12).on_turn(2).build();
    let mut players = PlayersBuilder::new()
        .with_input(Allies, Number(1))
        .with_input(Empires, Number(2))
        .build();

    determine_initiative(&mut players, &mut engine);

    assert_eq!(Empires, engine.state.initiative)
}

#[test]
fn initiative_consumes_bid_pr_from_both_sides() {
    let allies_bid = 1;
    let empires_bid = 2;
    let initial_allies_resources = 4;
    let initial_empires_resources = 5;

    let mut engine = EngineBuilder::new(12)
        .with_resources(Allies, initial_allies_resources)
        .with_resources(Empires, initial_empires_resources)
        .on_turn(2)
        .build();

    let mut players = PlayersBuilder::new()
        .with_input(Allies, Number(allies_bid))
        .with_input(Empires, Number(empires_bid))
        .build();

    determine_initiative(&mut players, &mut engine);

    assert_eq!(
        initial_allies_resources - allies_bid,
        engine.state.state_of_war(Allies).resources
    );
    assert_eq!(
        initial_empires_resources - empires_bid,
        engine.state.state_of_war(Empires).resources
    )
}

#[test]
fn allies_have_initiative_if_die_roll_is_better_given_equal_bid() {
    let mut engine = EngineBuilder::new(14)
        .with_resources(Allies, 4)
        .with_resources(Empires, 5)
        .on_turn(2)
        .build();

    let allies_bid = 2;
    let empires_bid = 2;

    let mut players = PlayersBuilder::new()
        .with_input(Allies, Number(allies_bid))
        .with_input(Empires, Number(empires_bid))
        .build();

    determine_initiative(&mut players, &mut engine);

    assert_eq!(Allies, engine.state.initiative)
}

#[test]
fn empires_have_initiative_on_turn_2_given_equal_bid_and_die() {
    let mut engine = EngineBuilder::new(14)
        .with_resources(Allies, 4)
        .with_resources(Empires, 5)
        .on_turn(2)
        .build();

    let mut players = PlayersBuilder::new()
        .with_input(Allies, Number(2))
        .with_input(Empires, Number(4))
        .build();

    determine_initiative(&mut players, &mut engine);

    assert_eq!(Empires, engine.state.initiative)
}

#[test]
fn allies_have_initiative_on_turn_4_given_equal_bid_and_die() {
    let mut engine = EngineBuilder::new(14)
        .with_resources(Allies, 4)
        .with_resources(Empires, 5)
        .on_turn(4)
        .build();

    let mut players = PlayersBuilder::new()
        .with_input(Allies, Number(2))
        .with_input(Empires, Number(4))
        .build();

    determine_initiative(&mut players, &mut engine);

    assert_eq!(Allies, engine.state.initiative)
}

#[test]
fn collect_resources_increase_pr_for_each_side() {
    let mut engine = EngineBuilder::new(14).build();

    engine.collect_resources();

    assert_eq!(14, engine.state.resources_for(&Allies));
    assert_eq!(9, engine.state.resources_for(&Empires));
}

#[test]
fn collect_resources_cannot_increase_pr_over_20() {
    let mut engine = EngineBuilder::new(14).build();

    engine.collect_resources();
    engine.collect_resources();

    assert_eq!(20, engine.state.resources_for(&Allies));
    assert_eq!(18, engine.state.resources_for(&Empires));
}

#[test]
fn collect_resources_changes_allies_pr_when_italy_goes_at_war() {
    let mut engine = EngineBuilder::new(14).with_nation(Italy, AtWar(5)).build();

    engine.collect_resources();

    assert_eq!(16, engine.state.resources_for(&Allies));
    assert_eq!(9, engine.state.resources_for(&Empires));
}

#[test]
fn collect_resources_changes_allies_pr_when_russia_breakdown_changes() {
    let mut engine = EngineBuilder::new(14).with_nation(Russia, AtWar(3)).build();

    engine.collect_resources();

    assert_eq!(10, engine.state.resources_for(&Allies));
    assert_eq!(9, engine.state.resources_for(&Empires));
}

#[test]
fn collect_resources_changes_empires_pr_when_bulgaria_goes_at_war() {
    let mut engine = EngineBuilder::new(14)
        .with_nation(Bulgaria, AtWar(3))
        .build();

    engine.collect_resources();

    assert_eq!(14, engine.state.resources_for(&Allies));
    assert_eq!(10, engine.state.resources_for(&Empires));
}
