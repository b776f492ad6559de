use der_des_ders::event::all_events;
use der_des_ders::fixtures::{EngineBuilder, PlayersBuilder};
use der_des_ders::{apply_event, draw_events, launch_offensives};
use der_des_ders::HitsResult;
use der_des_ders::Input::{Offensive, Pass};
use der_des_ders::Nation::{France, Germany, Italy};
use der_des_ders::NationState::{AtWar};
use der_des_ders::OffensiveOutcome;
use der_des_ders::Output::{self, EventDrawn};
use der_des_ders::Side::{Allies};

#[test]
fn draw_three_events_at_start_of_turn() {
    let mut engine = EngineBuilder::new(18).build();
    let mut players = PlayersBuilder::new().build();

    draw_events(&mut players, &mut engine);

    assert_eq!(
        vec![
            EventDrawn(2, "All is quiet".to_string()),
            EventDrawn(1, "All is quiet".to_string()),
            EventDrawn(3, "Schlieffen plan".to_string()),
        ],
        players
            .allies_player
            .out()
            .iter()
            .take(3)
            .cloned()
            .collect::<Vec<_>>()
    );
}

#[test]
fn stop_drawing_events_if_no_events_are_available() {
    let mut engine = EngineBuilder::new(18).build();
    let mut players = PlayersBuilder::new().build();

    draw_events(&mut players, &mut engine);
    draw_events(&mut players, &mut engine);
    draw_events(&mut players, &mut engine);

    assert_eq!(5, players.allies_player.out().len());
}

#[test]
fn add_events_from_year_to_pool_at_start_of_year_and_remove_invalid_events() {
    let mut engine = EngineBuilder::new(18).build();
    let mut players = PlayersBuilder::new().build();

    draw_events(&mut players, &mut engine);
    engine.new_turn(); // year = 1915
    draw_events(&mut players, &mut engine);

    // collect last 3 events drawn
    let events = players
        .allies_player
        .out()
        .iter()
        .skip(3)
        .filter_map(|e| match e {
            EventDrawn(eid, _) => all_events().iter().find(|ev| ev.event_id == *eid).cloned(),
            _ => None,
        })
        .collect::<Vec<_>>();

    assert_eq!(3, events.len());
    assert!(events
        .iter()
        .all(|ev| ev.not_after == Some(1915) || ev.not_after.is_none()));
}

#[test]
fn applying_plan_schlieffen_immediately_runs_offensive_from_germany_to_france() {
    let mut engine = EngineBuilder::new(14).build();
    let mut players = PlayersBuilder::new().build();

    apply_event(&mut players, &mut engine, &all_events()[2]);

    assert_eq!(
        vec![Output::OffensiveResult {
            from: Germany,
            to: France,
            result: OffensiveOutcome::Hits(HitsResult::Hits(France, 2))
        },],
        players.allies_player.out()
    );
    assert_eq!(AtWar(5), engine.state.nation_state(France));
}

#[test]
fn applying_race_to_the_sea_gives_a_bonus_to_offensive_between_france_and_germany() {
    let mut engine = EngineBuilder::new(20) // die roll = 3
        .with_initiative(Allies)
        .with_resources(Allies, 4)
        .on_turn(1)
        .build();

    let mut players = PlayersBuilder::new()
        .with_input(Allies, Offensive(France, Germany, 1))
        .with_input(Allies, Pass)
        .build();

    apply_event(&mut players, &mut engine, &all_events()[3]);
    launch_offensives(Allies, &mut players, &mut engine);

    assert_eq!(AtWar(7), engine.state.nation_state(Germany));
}

#[test]
fn race_to_the_sea_is_deactivated_on_new_turn() {
    let mut engine = EngineBuilder::new(20) // die roll = 3
        .with_initiative(Allies)
        .with_resources(Allies, 4)
        .on_turn(1)
        .build();

    let mut players = PlayersBuilder::new()
        .with_input(Allies, Offensive(France, Germany, 1))
        .with_input(Allies, Pass)
        .build();

    apply_event(&mut players, &mut engine, &all_events()[3]);
    engine.new_turn();
    launch_offensives(Allies, &mut players, &mut engine);

    assert_eq!(AtWar(8), engine.state.nation_state(Germany));
}

#[test]
fn italy_entering_war_updates_its_state() {
    let mut engine = EngineBuilder::new(14).build();
    let mut players = PlayersBuilder::new().build();

    apply_event(&mut players, &mut engine, &all_events()[9]);

    assert_eq!(AtWar(5), engine.state.nation_state(Italy));
}
