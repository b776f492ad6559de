use der_des_ders::fixtures::{EngineBuilder, PlayersBuilder};
use der_des_ders::tech::{zero_technologies, Technologies};
use der_des_ders::launch_offensives;
use der_des_ders::HitsResult;
use der_des_ders::Input::{Offensive, Pass};
use der_des_ders::Nation::{self, AustriaHungary, Egypt, France, FrenchAfrica, Germany, OttomanEmpire, Russia, Serbia};
use der_des_ders::NationState::{AtWar};
use der_des_ders::OffensiveOutcome;
use der_des_ders::Output;
use der_des_ders::Side::{Allies, Empires};

const ALLIES_AT_START: [Nation; 5] = [France, Russia, Egypt, Serbia, FrenchAfrica];

#[test]
fn initiative_player_can_spend_pr_to_launch_offensive_between_adjacent_countries() {
    let mut engine = EngineBuilder::new(14)
        .with_resources(Allies, 4)
        .with_initiative(Allies)
        .on_turn(1)
        .build();
    let mut players = PlayersBuilder::new()
        .with_input(Allies, Offensive(France, Germany, 1))
        .with_input(Allies, Pass)
        .build();

    launch_offensives(Allies, &mut players, &mut engine);

    assert_eq!(AtWar(7), engine.state.nation_state(Germany));
    assert_eq!(3, engine.state.resources_for(&Allies));
}

#[test]
fn player_cannot_spend_more_pr_than_available_for_offensives() {
    let mut engine = EngineBuilder::new(14)
        .with_resources(Allies, 2)
        .with_initiative(Allies)
        .on_turn(1)
        .build();
    let mut players = PlayersBuilder::new()
        .with_input(Allies, Offensive(France, Germany, 3))
        .with_input(Allies, Pass)
        .build();

    launch_offensives(Allies, &mut players, &mut engine);

    assert_eq!(
        vec![
            Output::LaunchOffensive(ALLIES_AT_START.to_vec()),
            Output::OffensiveResult {
                from: France,
                to: Germany,
                result: OffensiveOutcome::NotEnoughResources(3, 2)
            },
            Output::LaunchOffensive(ALLIES_AT_START.to_vec()),
        ],
        players.allies_player.out()
    );
    assert_eq!(2, engine.state.resources_for(&Allies));
}

#[test]
fn initiative_player_launch_several_offensives() {
    let mut engine = EngineBuilder::new(16)
        .with_resources(Allies, 4)
        .with_initiative(Allies)
        .on_turn(1)
        .build();
    let mut players = PlayersBuilder::new()
        .with_input(Allies, Offensive(France, Germany, 1))
        .with_input(Allies, Offensive(Russia, OttomanEmpire, 1))
        .with_input(Allies, Pass)
        .build();

    launch_offensives(Allies, &mut players, &mut engine);

    assert_eq!(AtWar(7), engine.state.nation_state(Germany));
    assert_eq!(AtWar(4), engine.state.nation_state(OttomanEmpire));
    assert_eq!(2, engine.state.resources_for(&Allies));
}

#[test]
fn prompt_list_possible_attacker() {
    let mut engine = EngineBuilder::new(16)
        .with_resources(Allies, 4)
        .with_initiative(Allies)
        .on_turn(1)
        .build();
    let mut players = PlayersBuilder::new()
        .with_input(Allies, Offensive(France, Germany, 1))
        .with_input(Allies, Offensive(Russia, OttomanEmpire, 1))
        .with_input(Allies, Pass)
        .build();

    launch_offensives(Allies, &mut players, &mut engine);

    assert_eq!(
        vec![
            Output::LaunchOffensive(vec![France, Russia, Egypt, Serbia, FrenchAfrica]),
            Output::OffensiveResult {
                from: France,
                to: Germany,
                result: OffensiveOutcome::Hits(HitsResult::Hits(Germany, 1))
            },
            Output::LaunchOffensive(vec![Russia, Egypt, Serbia, FrenchAfrica]),
            Output::OffensiveResult {
                from: Russia,
                to: OttomanEmpire,
                result: OffensiveOutcome::Hits(HitsResult::Hits(OttomanEmpire, 1))
            },
            Output::LaunchOffensive(vec![Egypt, Serbia, FrenchAfrica])
        ],
        players.allies_player.out()
    );
}

#[test]
fn cannot_launch_offensive_to_not_adjacent_country() {
    let mut engine = EngineBuilder::new(16)
        .with_resources(Allies, 4)
        .with_initiative(Allies)
        .on_turn(1)
        .build();
    let mut players = PlayersBuilder::new()
        .with_input(Allies, Offensive(France, AustriaHungary, 1))
        .with_input(Allies, Pass)
        .build();

    launch_offensives(Allies, &mut players, &mut engine);

    assert_eq!(
        vec![
            Output::LaunchOffensive(ALLIES_AT_START.to_vec()),
            Output::AttackingNonAdjacentCountry(France, AustriaHungary),
            Output::LaunchOffensive(ALLIES_AT_START.to_vec()),
        ],
        players.allies_player.out()
    );
    assert_eq!(4, engine.state.resources_for(&Allies));
}

#[test]
fn initiative_player_launch_cannot_launch_several_offensives_from_same_country() {
    let mut engine = EngineBuilder::new(16)
        .with_resources(Allies, 4)
        .with_initiative(Allies)
        .on_turn(1)
        .build();
    let mut players = PlayersBuilder::new()
        .with_input(Allies, Offensive(Russia, Germany, 1))
        .with_input(Allies, Offensive(Russia, AustriaHungary, 1))
        .with_input(Allies, Pass)
        .build();

    launch_offensives(Allies, &mut players, &mut engine);

    assert_eq!(AtWar(7), engine.state.nation_state(Germany));
    assert_eq!(
        vec![
            Output::LaunchOffensive(ALLIES_AT_START.to_vec()),
            Output::OffensiveResult {
                from: Russia,
                to: Germany,
                result: OffensiveOutcome::Hits(HitsResult::Hits(Germany, 1)),
            },
            Output::LaunchOffensive([France, Egypt, Serbia, FrenchAfrica].to_vec()),
            Output::CountryAlreadyAttacked(Russia),
            Output::LaunchOffensive([France, Egypt, Serbia, FrenchAfrica].to_vec()),
        ],
        players.allies_player.out()
    );
    assert_eq!(3, engine.state.resources_for(&Allies));
}

#[test]
fn pr_for_offensive_cannot_exceed_operational_level() {
    let mut engine = EngineBuilder::new(16)
        .with_resources(Allies, 4)
        .with_initiative(Allies)
        .on_turn(1)
        .build();
    let mut players = PlayersBuilder::new()
        .with_input(Allies, Offensive(Serbia, AustriaHungary, 2))
        .with_input(Allies, Pass)
        .build();

    launch_offensives(Allies, &mut players, &mut engine);

    assert_eq!(
        vec![
            Output::LaunchOffensive(ALLIES_AT_START.to_vec()),
            Output::OffensiveResult {
                from: Serbia,
                to: AustriaHungary,
                result: OffensiveOutcome::OperationalLevelTooLow(1, 2)
            },
            Output::LaunchOffensive(ALLIES_AT_START.to_vec()),
        ],
        players.allies_player.out()
    );
    assert_eq!(4, engine.state.resources_for(&Allies));
}

#[test]
fn attack_technology_provides_offensive_bonus() {
    let mut engine = EngineBuilder::new(18)
        .with_resources(Allies, 4)
        .with_initiative(Allies)
        .with_technologies(
            Allies,
            Technologies {
                attack: 2,
                ..zero_technologies()
            },
        )
        .on_turn(2)
        .build();
    let mut players = PlayersBuilder::new()
        .with_input(Allies, Offensive(France, Germany, 1))
        .with_input(Allies, Pass)
        .build();

    launch_offensives(Allies, &mut players, &mut engine);

    assert_eq!(AtWar(7), engine.state.nation_state(Germany));
}

#[test]
fn defense_technology_provides_offensive_malus() {
    let mut engine = EngineBuilder::new(18)
        .with_resources(Allies, 4)
        .with_initiative(Allies)
        .with_technologies(
            Allies,
            Technologies {
                attack: 2,
                ..zero_technologies()
            },
        )
        .with_technologies(
            Empires,
            Technologies {
                defense: 2,
                ..zero_technologies()
            },
        )
        .on_turn(2)
        .build();
    let mut players = PlayersBuilder::new()
        .with_input(Allies, Offensive(France, Germany, 1))
        .with_input(Allies, Pass)
        .build();

    launch_offensives(Allies, &mut players, &mut engine);

    assert_eq!(AtWar(8), engine.state.nation_state(Germany));
}

#[test]
fn offensive_launch_as_many_dice_as_pr_expended() {
    let mut engine = EngineBuilder::new(15)
        .with_resources(Allies, 4)
        .with_initiative(Allies)
        .build();
    let mut players = PlayersBuilder::new()
        .with_input(Allies, Offensive(France, Germany, 3))
        .with_input(Allies, Pass)
        .build();

    launch_offensives(Allies, &mut players, &mut engine);

    assert_eq!(AtWar(5), engine.state.nation_state(Germany));
}

#[test]
fn artillery_technology_adds_more_dice_to_throw() {
    let mut engine = EngineBuilder::new(15)
        .with_resources(Allies, 4)
        .with_initiative(Allies)
        .with_technologies(
            Allies,
            Technologies {
                artillery: 2,
                ..zero_technologies()
            },
        )
        .build();
    let mut players = PlayersBuilder::new()
        .with_input(Allies, Offensive(France, Germany, 1))
        .with_input(Allies, Pass)
        .build();

    launch_offensives(Allies, &mut players, &mut engine);

    assert_eq!(AtWar(5), engine.state.nation_state(Germany));
}

#[test]
fn offensive_cannot_use_attack_technology_greater_than_limit() {
    let mut engine = EngineBuilder::new(11) // die roll < 3
        .with_resources(Allies, 4)
        .with_initiative(Allies)
        .with_technologies(
            Allies,
            Technologies {
                attack: 3,
                ..zero_technologies()
            },
        )
        .build();
    let mut players = PlayersBuilder::new()
        .with_input(Allies, Offensive(Serbia, AustriaHungary, 1))
        .with_input(Allies, Pass)
        .build();

    launch_offensives(Allies, &mut players, &mut engine);

    assert_eq!(
        AtWar(5),
        engine.state.nation_state(AustriaHungary)
    );
}

#[test]
fn offensive_cannot_use_artillery_technology_greater_than_limit() {
    let mut engine = EngineBuilder::new(11) // die rolls = 2, 2, 4, 5
        .with_resources(Allies, 4)
        .with_initiative(Allies)
        .with_technologies(
            Allies,
            Technologies {
                artillery: 3,
                ..zero_technologies()
            },
        )
        .build();
    let mut players = PlayersBuilder::new()
        .with_input(Allies, Offensive(Serbia, AustriaHungary, 1))
        .with_input(Allies, Pass)
        .build();

    launch_offensives(Allies, &mut players, &mut engine);

    // max tech level of Serbia is 2
    // it should throw 4 dice but only 3 are taken into account
    // so no hit is inflicted
    assert_eq!(
        AtWar(5),
        engine.state.nation_state(AustriaHungary)
    );
}

#[test]
fn defensive_side_cannot_use_defense_technology_greater_than_limit() {
    let mut engine = EngineBuilder::new(14) // die = 6
        .with_resources(Allies, 4)
        .with_initiative(Allies)
        .with_technologies(
            Empires,
            Technologies {
                defense: 3,
                ..zero_technologies()
            },
        )
        .with_technologies(
            Allies,
            Technologies {
                attack: 1,
                ..zero_technologies()
            },
        )
        .build();
    let mut players = PlayersBuilder::new()
        .with_input(Allies, Offensive(Russia, OttomanEmpire, 1))
        .with_input(Allies, Pass)
        .build();

    launch_offensives(Allies, &mut players, &mut engine);

    // max tech level of OttomanEmpire is 2
    // attack factor of Russia is 5
    // result = 6 (die) + 1 (attack bonus) - 2 (defense bonus capped at max tech level) = 5
    // Russia inflicts 1 hit
    assert_eq!(AtWar(4), engine.state.nation_state(OttomanEmpire));
}
