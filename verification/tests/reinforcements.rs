use der_des_ders::fixtures::{EngineBuilder, PlayersBuilder};
use der_des_ders::reinforcements;
use der_des_ders::Input::{Pass, Reinforce};
use der_des_ders::Nation::{France, Russia};
use der_des_ders::NationState::{AtWar};
use der_des_ders::Side::{Allies};

#[test]
fn initiative_player_can_spend_pr_to_reinforce_nation() {
    let mut engine = EngineBuilder::new(14)
        .with_resources(Allies, 4)
        .with_initiative(Allies)
        .with_nation(France, AtWar(4))
        .on_turn(1)
        .build();
    let mut players = PlayersBuilder::new()
        .with_input(Allies, Reinforce(France, 1))
        .with_input(Allies, Pass)
        .build();

    reinforcements(Allies, &mut players, &mut engine);

    assert_eq!(AtWar(5), engine.state.nation_state(France));
    assert_eq!(3, engine.state.resources_for(&Allies));
}

#[test]
fn reinforcements_cost_grows_quadratically() {
    let mut engine = EngineBuilder::new(14)
        .with_resources(Allies, 4)
        .with_initiative(Allies)
        .with_nation(France, AtWar(4))
        .with_nation(Russia, AtWar(3))
        .on_turn(1)
        .build();
    let mut players = PlayersBuilder::new()
        .with_input(Allies, Reinforce(France, 2)) // 1 pr spent only  => 1 reinforcement
        .with_input(Allies, Reinforce(Russia, 3)) // 1 + 2 = 3 pr spint => 2 reinforcements
        .with_input(Allies, Pass)
        .build();

    reinforcements(Allies, &mut players, &mut engine);

    assert_eq!(AtWar(5), engine.state.nation_state(France));
    assert_eq!(AtWar(5), engine.state.nation_state(Russia));
    assert_eq!(0, engine.state.resources_for(&Allies));
}

#[test]
fn reinforcements_cannot_spend_more_pr_than_available_resources() {
    let mut engine = EngineBuilder::new(14)
        .with_resources(Allies, 4)
        .with_initiative(Allies)
        .with_nation(France, AtWar(4))
        .on_turn(1)
        .build();
    let mut players = PlayersBuilder::new()
        .with_input(Allies, Reinforce(France, 6))
        .with_input(Allies, Pass)
        .build();

    reinforcements(Allies, &mut players, &mut engine);

    assert_eq!(1, engine.state.resources_for(&Allies));
    assert_eq!(AtWar(6), engine.state.nation_state(France));
}

#[test]
fn cannot_reinforce_nation_past_initial_breakdown() {
    let mut engine = EngineBuilder::new(14)
        .with_resources(Allies, 4)
        .with_initiative(Allies)
        .with_nation(France, AtWar(6))
        .on_turn(1)
        .build();
    let mut players = PlayersBuilder::new()
        .with_input(Allies, Reinforce(France, 3))
        .with_input(Allies, Pass)
        .build();

    reinforcements(Allies, &mut players, &mut engine);

    assert_eq!(AtWar(7), engine.state.nation_state(France));
    assert_eq!(3, engine.state.resources_for(&Allies));
}
