use der_des_ders::fixtures::EngineBuilder;
use der_des_ders::tech::{zero_technologies, Technologies};
use der_des_ders::GameState;
use der_des_ders::HitsResult::{Hits, NationNotAtWar, Surrenders, Winner};
use der_des_ders::Nation::{AustriaHungary, France, Germany, Italy, OttomanEmpire, Russia};
use der_des_ders::NationState::{AtPeace, AtWar};
use der_des_ders::Side::{Allies, Empires};
use der_des_ders::StateChange;

#[test]
fn nation_surrenders_when_brought_to_0_then_increase_vp_of_other_side() {
    let mut engine = EngineBuilder::new(14) // die roll = 6
        .with_nation(France, AtWar(4))
        .build();
    let result = engine.apply_hits(&France, 4);

    assert_eq!(Surrenders(France), result);
    assert_eq!(6, engine.state.state_of_war(Empires).vp);
    assert_eq!(AtPeace, engine.state.nation_state(France));
}

#[test]
fn side_wins_and_game_ends_if_die_roll_lower_than_vp_given_nation_surrenders() {
    let mut engine = EngineBuilder::new(11) // die roll = 2
        .with_nation(France, AtWar(4))
        .build();
    let result = engine.apply_hits(&France, 4);

    assert_eq!(Empires, engine.state.winner());
    assert_eq!(Winner(Empires), result);
    assert!(engine.game_ends());
}

#[test]
fn empires_is_winning_given_they_have_more_vps() {
    let mut engine = EngineBuilder::new(11) // die roll = 2
        .with_nation(Italy, AtWar(4))
        .build();

    engine.apply_hits(&Italy, 4);

    assert_eq!(Empires, engine.state.winner());
}

#[test]
fn empires_is_winning_given_they_have_equal_vps() {
    let mut engine = EngineBuilder::new(11) // die roll = 2
        .with_nation(Italy, AtWar(4))
        .with_nation(OttomanEmpire, AtWar(4))
        .build();

    engine.apply_hits(&Italy, 4);
    engine.apply_hits(&OttomanEmpire, 4);

    assert_eq!(Empires, engine.state.winner());
}

#[test]
fn allies_is_winning_given_they_have_more_vps() {
    let mut engine = EngineBuilder::new(11) // die roll = 2
        .with_nation(Italy, AtWar(4))
        .with_nation(AustriaHungary, AtWar(4))
        .build();

    engine.apply_hits(&Italy, 4);
    engine.apply_hits(&AustriaHungary, 4);

    assert_eq!(Allies, engine.state.winner());
}

#[test]
fn breakdown_returns_hits_lost() {
    let mut engine = EngineBuilder::new(11).with_nation(France, AtWar(4)).build();

    assert_eq!(Hits(France, 2), engine.apply_hits(&France, 2));
}

#[test]
fn breakdown_does_not_inflict_hits_given_nation_is_not_at_war() {
    let mut engine = EngineBuilder::new(11).build();

    assert_eq!(NationNotAtWar(Italy), engine.apply_hits(&Italy, 2));
}

#[test]
fn only_technologies_for_1914_are_available_at_start() {
    let engine = EngineBuilder::new(11).build();

    let allies_techs = engine.state.available_technologies(&Allies);
    assert!(allies_techs.iter().all(|tech| tech.date == 1914));

    let empires_techs = engine.state.available_technologies(&Empires);
    assert!(empires_techs.iter().all(|tech| tech.date == 1914));
}

#[test]
fn only_technologies_beyond_current_level_are_available() {
    let engine = EngineBuilder::new(11)
        .with_technologies(
            Empires,
            Technologies {
                defense: 1,
                ..zero_technologies()
            },
        )
        .with_technologies(
            Allies,
            Technologies {
                attack: 1,
                ..zero_technologies()
            },
        )
        .on_turn(3)
        .build();

    let allies_techs = engine.state.available_technologies(&Allies);

    assert_eq!(
        vec!["Combat Gas", "Trench warfare", "Heavy artillery", "Reco"],
        allies_techs
            .iter()
            .map(|tech| tech.name.into())
            .collect::<Vec<String>>()
    );

    let empires_techs = engine.state.available_technologies(&Empires);

    assert_eq!(
        vec!["Combat Gas", "Trench warfare", "Heavy artillery", "Reco"],
        empires_techs
            .iter()
            .map(|tech| tech.name.into())
            .collect::<Vec<String>>()
    );
}

#[test]
fn can_list_all_neighbouring_nations_one_can_attack() {
    let engine = EngineBuilder::new(11).build();

    assert_eq!(vec![Germany], engine.state.neighbours(&France));
    assert_eq!(vec![France, Russia], engine.state.neighbours(&Germany));
}

#[test]
fn no_change_does_not_modify_state() {
    let mut state = GameState::new(12);
    state.increase_pr(Allies, state.tally_resources(&Allies));

    state.apply_change(&StateChange::NoChange);

    assert_eq!(14, state.resources_for(&Allies));
}

#[test]
fn applying_change_modifies_state() {
    let mut state = GameState::new(12);
    state.increase_pr(Allies, state.tally_resources(&Allies));

    state.apply_change(&StateChange::ChangeResources {
        side: Allies,
        pr: -4,
    });

    assert_eq!(10, state.resources_for(&Allies));
}

#[test]
fn applying_more_changes_modifies_state_for_each_individual_change() {
    let mut state = GameState::new(12);
    state.increase_pr(Allies, state.tally_resources(&Allies));
    state.increase_pr(Empires, state.tally_resources(&Empires));

    let reduce_pr = StateChange::ChangeResources {
        side: Allies,
        pr: -4,
    };
    let add_pr = StateChange::ChangeResources {
        side: Empires,
        pr: 2,
    };
    state.apply_change(&StateChange::MoreChanges(vec![reduce_pr, add_pr]));

    assert_eq!(10, state.resources_for(&Allies));
    assert_eq!(11, state.resources_for(&Empires));
}
