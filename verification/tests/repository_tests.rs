use std::collections::BTreeMap;
use golf_score_tracker::player::Player;
use golf_score_tracker::repository::{FileRepository, InMemoryRepository, Repository};
use golf_score_tracker::scorecard::Scorecard;

fn nine_hole_card(player_id: u128) -> Scorecard {
    let mut pars = BTreeMap::new();
    for hole in 1..=9u8 {
        pars.insert(hole, 4);
    }
    Scorecard::new(player_id, 9, pars).unwrap()
}

#[test]
fn save_then_get_player_round_trips() {
    let mut repo = InMemoryRepository::new();
    let player = Player::new("Arnold Palmer", Some(12)).unwrap();

    repo.save_player(&player).unwrap();
    let loaded = repo.get_player(player.id).unwrap();
    assert_eq!(loaded, Some(player.clone()));

    // Overwrite with the same id: the new record wins.
    let renamed = Player { name: "Arnie".to_string(), ..player.clone() };
    repo.save_player(&renamed).unwrap();
    assert_eq!(repo.get_player(player.id).unwrap(), Some(renamed));
    assert_eq!(repo.list_players().unwrap().len(), 1);
}

#[test]
fn save_then_get_scorecard_round_trips() {
    let mut repo = InMemoryRepository::new();
    let mut card = nine_hole_card(5);
    card.record_score(1, 3).unwrap();
    card.record_score(2, 5).unwrap();

    repo.save_scorecard(&card).unwrap();
    let loaded = repo.get_scorecard(card.round_id).unwrap().unwrap();
    assert_eq!(loaded, card);
    assert_eq!(loaded.get_score(1), Some(3));
    assert_eq!(loaded.get_score(2), Some(5));
    assert_eq!(loaded.get_par(9), Some(4));
}

#[test]
fn get_on_missing_id_is_explicit_absence() {
    let repo = InMemoryRepository::new();
    assert_eq!(repo.get_player(999).unwrap(), None);
    assert!(repo.get_scorecard(999).unwrap().is_none());
    assert!(repo.list_players().unwrap().is_empty());
    assert!(repo.list_scorecards().unwrap().is_empty());
    assert!(repo.get_scorecards_by_player(999).unwrap().is_empty());
}

#[test]
fn scorecards_filter_by_player() {
    let mut repo = InMemoryRepository::new();
    let card_a1 = nine_hole_card(1);
    let card_a2 = nine_hole_card(1);
    let card_b = nine_hole_card(2);

    repo.save_scorecard(&card_a1).unwrap();
    repo.save_scorecard(&card_a2).unwrap();
    repo.save_scorecard(&card_b).unwrap();

    assert_eq!(repo.list_scorecards().unwrap().len(), 3);

    let for_a = repo.get_scorecards_by_player(1).unwrap();
    assert_eq!(for_a.len(), 2);
    assert!(for_a.iter().all(|sc| sc.player_id == 1));

    let for_b = repo.get_scorecards_by_player(2).unwrap();
    assert_eq!(for_b.len(), 1);
    assert_eq!(for_b[0].round_id, card_b.round_id);
}

#[test]
fn saving_same_round_id_overwrites() {
    let mut repo = InMemoryRepository::new();
    let mut card = nine_hole_card(3);
    repo.save_scorecard(&card).unwrap();

    card.record_score(4, 2).unwrap();
    repo.save_scorecard(&card).unwrap();

    assert_eq!(repo.list_scorecards().unwrap().len(), 1);
    let loaded = repo.get_scorecard(card.round_id).unwrap().unwrap();
    assert_eq!(loaded.get_score(4), Some(2));
}

#[test]
fn file_layout_names_records_by_id() {
    let repo = FileRepository::new("./golf_data".to_string());
    assert_eq!(repo.player_path(42), "./golf_data/players/42.json");
    assert_eq!(repo.scorecard_path(7), "./golf_data/scorecards/7.json");
}
