use der_des_ders::fixtures::{EngineBuilder, PlayersBuilder};
use der_des_ders::tech::{all_technology_types, zero_technologies, Technologies};
use der_des_ders::improve_technologies;
use der_des_ders::Input::{Number, Pass, Select};
use der_des_ders::Output;
use der_des_ders::Side::{Allies, Empires};
use der_des_ders::TechnologyImprovement::{NoMoreTechnologyImprovement, TechnologyNotAvailable};
use der_des_ders::TechnologyType::{Air, Artillery, Attack, Defense};

#[test]
fn technology_does_not_change_given_player_passes_on_it() {
    let mut engine = EngineBuilder::new(14).with_initiative(Empires).build();
    let mut players = PlayersBuilder::new().with_input(Empires, Pass).build();

    improve_technologies(Empires, &mut players, &mut engine);

    assert_eq!(
        zero_technologies(),
        engine.state.state_of_war(Empires).technologies
    );
}

#[test]
fn empires_improve_attack_technology_1_level_given_player_spends_resources() {
    let mut engine = EngineBuilder::new(11) // die roll = 2
        .with_resources(Empires, 4)
        .with_initiative(Empires)
        .on_turn(2)
        .build();
    let mut players = PlayersBuilder::new()
        .with_input(Empires, Select(Attack, 3))
        .with_input(Empires, Pass)
        .build();

    improve_technologies(Empires, &mut players, &mut engine);

    assert_eq!(
        Technologies {
            attack: 1,
            ..zero_technologies()
        },
        engine.state.state_of_war(Empires).technologies
    );
    assert_eq!(1, engine.state.resources_for(&Empires));
}

#[test]
fn empires_cannot_improve_attack_technology_too_soon() {
    let mut engine = EngineBuilder::new(14)
        .with_resources(Empires, 4)
        .with_initiative(Empires)
        .on_turn(1)
        .build();
    let mut players = PlayersBuilder::new()
        .with_input(Empires, Select(Attack, 2))
        .with_input(Empires, Pass)
        .build();

    improve_technologies(Empires, &mut players, &mut engine);

    assert_eq!(
        Technologies {
            attack: 0,
            ..zero_technologies()
        },
        engine.state.state_of_war(Empires).technologies
    );
    assert_eq!(4, engine.state.resources_for(&Empires));
    assert_eq!(
        vec![
            Output::ImproveTechnologies(all_technology_types()),
            Output::TechnologyResult(TechnologyNotAvailable(
                "Combat Gas".to_string(),
                1915,
                1914
            )),
            Output::ImproveTechnologies(all_technology_types()),
        ],
        players.empires_player.out()
    );
}

#[test]
fn allies_improve_defense_technology_1_level_given_player_spends_resources() {
    let mut engine = EngineBuilder::new(14)
        .with_resources(Allies, 4)
        .with_technologies(
            Allies,
            Technologies {
                defense: 1,
                ..zero_technologies()
            },
        )
        .with_initiative(Allies)
        .on_turn(2)
        .build();
    let mut players = PlayersBuilder::new()
        .with_input(Allies, Select(Defense, 4))
        .with_input(Allies, Pass)
        .build();

    improve_technologies(Allies, &mut players, &mut engine);

    assert_eq!(
        Technologies {
            defense: 2,
            ..zero_technologies()
        },
        engine.state.state_of_war(Allies).technologies
    );
    assert_eq!(0, engine.state.resources_for(&Allies));
}

#[test]
fn cannot_improve_technology_without_spending_resources() {
    let mut engine = EngineBuilder::new(14)
        .with_resources(Allies, 4)
        .with_technologies(
            Allies,
            Technologies {
                defense: 1,
                ..zero_technologies()
            },
        )
        .with_initiative(Allies)
        .on_turn(2)
        .build();
    let mut players = PlayersBuilder::new()
        .with_input(Allies, Select(Defense, 0))
        .with_input(Allies, Pass)
        .build();

    improve_technologies(Allies, &mut players, &mut engine);

    assert_eq!(
        Technologies {
            defense: 1,
            ..zero_technologies()
        },
        engine.state.state_of_war(Allies).technologies
    );
    assert_eq!(4, engine.state.resources_for(&Allies));
}

#[test]
fn allies_cannot_improve_artillery_technology_1_level_before_year_available() {
    let mut engine = EngineBuilder::new(14)
        .with_resources(Allies, 4)
        .with_initiative(Allies)
        .build();
    let mut players = PlayersBuilder::new()
        .with_input(Allies, Select(Artillery, 4))
        .with_input(Allies, Pass)
        .build();

    improve_technologies(Allies, &mut players, &mut engine);

    assert_eq!(
        zero_technologies(),
        engine.state.state_of_war(Allies).technologies
    );
    assert_eq!(4, engine.state.resources_for(&Allies));
}

#[test]
fn allies_improve_attack_technology_1_level_given_player_spends_resources() {
    let mut engine = EngineBuilder::new(14)
        .with_resources(Allies, 4)
        .with_technologies(
            Allies,
            Technologies {
                attack: 3,
                ..zero_technologies()
            },
        )
        .with_initiative(Allies)
        .on_turn(11)
        .build();
    let mut players = PlayersBuilder::new()
        .with_input(Allies, Select(Attack, 4))
        .with_input(Allies, Pass)
        .build();

    improve_technologies(Allies, &mut players, &mut engine);

    assert_eq!(
        Technologies {
            attack: 4,
            ..zero_technologies()
        },
        engine.state.state_of_war(Allies).technologies
    );
    assert_eq!(0, engine.state.resources_for(&Allies));
}

#[test]
fn allies_can_improve_technologies_1_level_until_pass() {
    let mut engine = EngineBuilder::new(14)
        .with_resources(Allies, 4)
        .with_initiative(Allies)
        .on_turn(2)
        .build();
    let mut players = PlayersBuilder::new()
        .with_input(Allies, Select(Attack, 2))
        .with_input(Allies, Select(Artillery, 2))
        .with_input(Allies, Pass)
        .build();

    improve_technologies(Allies, &mut players, &mut engine);

    assert_eq!(
        Technologies {
            attack: 1,
            artillery: 1,
            ..zero_technologies()
        },
        engine.state.state_of_war(Allies).technologies
    );
    assert_eq!(0, engine.state.resources_for(&Allies));
}

#[test]
fn allies_cannot_improve_defense_technology_level_past_3() {
    let mut engine = EngineBuilder::new(14)
        .with_resources(Allies, 4)
        .with_initiative(Allies)
        .with_technologies(
            Allies,
            Technologies {
                defense: 3,
                ..zero_technologies()
            },
        )
        .on_turn(2)
        .build();
    let mut players = PlayersBuilder::new()
        .with_input(Allies, Select(Defense, 2))
        .with_input(Allies, Pass)
        .build();

    improve_technologies(Allies, &mut players, &mut engine);

    assert_eq!(
        Technologies {
            defense: 3,
            ..zero_technologies()
        },
        engine.state.state_of_war(Allies).technologies
    );
    assert_eq!(
        vec![
            Output::ImproveTechnologies(all_technology_types()),
            Output::TechnologyResult(NoMoreTechnologyImprovement(Defense, 3)),
            Output::ImproveTechnologies(vec![Attack, Artillery, Air])
        ],
        players.allies_player.out()
    );
}

#[test]
fn allies_cannot_improve_attack_technology_level_past_4() {
    let mut engine = EngineBuilder::new(14)
        .with_resources(Allies, 4)
        .with_initiative(Allies)
        .with_technologies(
            Allies,
            Technologies {
                attack: 4,
                ..zero_technologies()
            },
        )
        .on_turn(8)
        .build();
    let mut players = PlayersBuilder::new()
        .with_input(Allies, Select(Attack, 1))
        .with_input(Allies, Pass)
        .build();

    improve_technologies(Allies, &mut players, &mut engine);

    assert_eq!(
        Technologies {
            attack: 4,
            ..zero_technologies()
        },
        engine.state.state_of_war(Allies).technologies
    );
    assert_eq!(
        vec![
            Output::ImproveTechnologies(all_technology_types()),
            Output::TechnologyResult(NoMoreTechnologyImprovement(Attack, 4)),
            Output::ImproveTechnologies(vec![Defense, Artillery, Air])
        ],
        players.allies_player.out()
    );
}

#[test]
fn cannot_improve_same_technology_twice() {
    let mut engine = EngineBuilder::new(14)
        .with_resources(Allies, 4)
        .with_initiative(Allies)
        .on_turn(2)
        .build();
    let mut players = PlayersBuilder::new()
        .with_input(Allies, Select(Defense, 2))
        .with_input(Allies, Select(Defense, 2))
        .with_input(Allies, Pass)
        .build();

    improve_technologies(Allies, &mut players, &mut engine);

    assert_eq!(
        Technologies {
            defense: 1,
            ..zero_technologies()
        },
        engine.state.state_of_war(Allies).technologies
    );
}

#[test]
fn allies_improve_air_technology_1_level_given_player_spends_resources() {
    let mut engine = EngineBuilder::new(14)
        .with_resources(Allies, 4)
        .with_initiative(Allies)
        .on_turn(3)
        .build();
    let mut players = PlayersBuilder::new()
        .with_input(Allies, Select(Air, 4))
        .with_input(Allies, Pass)
        .build();

    improve_technologies(Allies, &mut players, &mut engine);

    assert_eq!(
        Technologies {
            air: 1,
            ..zero_technologies()
        },
        engine.state.state_of_war(Allies).technologies
    );
    assert_eq!(0, engine.state.resources_for(&Allies));
}

#[test]
fn message_player_given_input_is_inappropriate_for_improve_tech_phase() {
    let mut engine = EngineBuilder::new(14).with_resources(Empires, 4).build();
    let mut players = PlayersBuilder::new()
        .with_input(Empires, Number(2))
        .with_input(Empires, Pass)
        .build();

    improve_technologies(Empires, &mut players, &mut engine);

    assert_eq!(
        vec![
            Output::ImproveTechnologies(all_technology_types()),
            Output::WrongInput(Number(2)),
            Output::ImproveTechnologies(all_technology_types())
        ],
        players.empires_player.out()
    );
}
