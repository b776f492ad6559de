use der_des_ders::fixtures::{EngineBuilder, PlayersBuilder};
use der_des_ders::sea_control;
use der_des_ders::Input::{ApplyHit, Number, Pass};
use der_des_ders::Nation::{France, Russia};
use der_des_ders::NationState::{AtWar};
use der_des_ders::Side::{Allies, Empires};

#[test]
fn empire_player_can_impact_resources_from_u_boot() {
    let mut engine = EngineBuilder::new(14) // die roll = 6
        .with_resources(Empires, 4)
        .with_resources(Allies, 4)
        .on_turn(1)
        .build();
    let mut players = PlayersBuilder::new().with_input(Empires, Pass).build();

    sea_control(Empires, &mut players, &mut engine);

    assert_eq!(0, engine.state.resources_for(&Allies));
}

#[test]
fn allies_player_can_increase_resources_from_blocus() {
    let mut engine = EngineBuilder::new(11) // die roll = 2
        .with_resources(Empires, 4)
        .with_resources(Allies, 4)
        .with_initiative(Allies)
        .on_turn(2)
        .build();
    let mut players = PlayersBuilder::new().with_input(Allies, Pass).build();

    sea_control(Allies, &mut players, &mut engine);

    assert_eq!(5, engine.state.resources_for(&Empires));
}

#[test]
fn empires_player_can_spend_pr_to_increase_u_boot_die_roll() {
    let mut engine = EngineBuilder::new(11)
        .with_resources(Empires, 4)
        .with_resources(Allies, 4)
        .on_turn(1)
        .build();
    let mut players = PlayersBuilder::new().with_input(Empires, Number(3)).build();

    sea_control(Empires, &mut players, &mut engine);

    assert_eq!(2, engine.state.resources_for(&Allies));
    assert_eq!(1, engine.state.resources_for(&Empires));
}

#[test]
fn modified_u_boot_die_roll_greater_than_6_is_6() {
    let mut engine = EngineBuilder::new(14)
        .with_resources(Empires, 4)
        .with_resources(Allies, 4)
        .on_turn(1)
        .build();
    let mut players = PlayersBuilder::new().with_input(Empires, Number(3)).build();

    sea_control(Empires, &mut players, &mut engine);

    assert_eq!(0, engine.state.resources_for(&Allies));
}

#[test]
fn allies_player_can_spend_pr_to_increase_blocus_die_roll() {
    let mut engine = EngineBuilder::new(11)
        .with_resources(Empires, 4)
        .with_resources(Allies, 4)
        .with_initiative(Allies)
        .on_turn(1)
        .build();
    let mut players = PlayersBuilder::new().with_input(Allies, Number(1)).build();

    sea_control(Allies, &mut players, &mut engine);

    assert_eq!(4, engine.state.resources_for(&Empires));
    assert_eq!(3, engine.state.resources_for(&Allies));
}

#[test]
fn allies_player_cannot_spend_more_pr_than_available_to_increase_blocus_die_roll() {
    let mut engine = EngineBuilder::new(11)
        .with_resources(Empires, 4)
        .with_resources(Allies, 1)
        .with_initiative(Allies)
        .on_turn(1)
        .build();
    let mut players = PlayersBuilder::new().with_input(Allies, Number(2)).build();

    sea_control(Allies, &mut players, &mut engine);

    assert_eq!(4, engine.state.resources_for(&Empires));
    assert_eq!(0, engine.state.resources_for(&Allies));
}

#[test]
fn empires_player_cannot_spend_more_pr_than_available_to_increase_u_boot_die_roll() {
    let mut engine = EngineBuilder::new(11)
        .with_resources(Empires, 2)
        .with_resources(Allies, 4)
        .with_initiative(Allies)
        .on_turn(1)
        .build();
    let mut players = PlayersBuilder::new().with_input(Empires, Number(3)).build();

    sea_control(Empires, &mut players, &mut engine);

    assert_eq!(0, engine.state.resources_for(&Empires));
    assert_eq!(4, engine.state.resources_for(&Allies));
}

#[test]
fn allies_player_need_to_increase_breakdown_given_they_don_t_have_enough_resources() {
    let mut engine = EngineBuilder::new(14)
        .with_resources(Empires, 4)
        .with_resources(Allies, 1)
        .with_initiative(Allies)
        .on_turn(1)
        .build();
    let mut players = PlayersBuilder::new()
        .with_input(Empires, Pass)
        .with_input(Allies, ApplyHit(France))
        .with_input(Allies, ApplyHit(Russia))
        .with_input(Allies, ApplyHit(Russia))
        .build();

    sea_control(Empires, &mut players, &mut engine);

    assert_eq!(0, engine.state.resources_for(&Allies));
    assert_eq!(AtWar(6), engine.state.nation_state(France));
    assert_eq!(AtWar(5), engine.state.nation_state(Russia));
}
