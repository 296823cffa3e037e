use storyline::item::{Pack, SplitItem};
use storyline::storyline::StoryError;
use storyline::wizard::{non_empty_names, prompt_style, App, AppMsg, AppState, Setting};

fn catalog() -> Vec<SplitItem> {
    vec![
        SplitItem {
            cycle_state: false,
            ty: 2,
            text: "%s must obey".to_string(),
            key: Some("k1".to_string()),
            parent_key: None,
            nb_players: 1,
        },
        SplitItem {
            cycle_state: false,
            ty: 2,
            text: "%s stops obeying".to_string(),
            key: None,
            parent_key: Some("k1".to_string()),
            nb_players: 1,
        },
    ]
}

#[test]
fn wizard_opens_on_players_with_defaults() {
    let app = App::create();
    assert_eq!(app.state, AppState::SelectPlayers);
    assert_eq!(app.players, vec![String::new(), String::new()]);
    assert_eq!(app.pack, Pack::Default);
    assert!(app.storyline.is_empty());
    assert_eq!(app.party_duration, 30);
    assert_eq!(app.max_rule_duration, 12);
}

#[test]
fn empty_names_keep_wizard_on_players() {
    let mut app = App::create();
    app.set_player(0, "   ".to_string());
    assert!(app.next(&[]).is_ok());
    assert_eq!(app.state, AppState::SelectPlayers);
    assert!(app.players.is_empty());
}

#[test]
fn names_are_trimmed_and_blanks_dropped() {
    let mut app = App::create();
    app.set_player(0, "  Alice ".to_string());
    app.add_player();
    app.set_player(2, "\tBob".to_string());
    assert!(app.next(&[]).is_ok());
    assert_eq!(app.players, vec!["Alice".to_string(), "Bob".to_string()]);
    assert_eq!(app.state, AppState::SelectPack);
}

#[test]
fn full_walk_through_play_and_back() {
    let mut app = App::create();
    app.set_player(0, "Alice".to_string());
    app.set_player(1, "Bob".to_string());
    app.next(&[]).unwrap();
    app.select_pack(Pack::Hot);
    assert_eq!(app.state, AppState::SelectSettings);
    assert!(app.set_party_duration(1));
    assert!(app.set_max_rule_duration(3));
    app.next(&catalog()).unwrap();
    assert_eq!(app.state, AppState::Play(0));
    assert_eq!(app.storyline.len(), 2);
    assert_eq!(app.storyline[0].0, 2);
    assert!(app.storyline[0].1.ends_with("must obey"));
    assert!(app.storyline[1].1.ends_with("stops obeying"));
    app.next(&[]).unwrap();
    app.next(&[]).unwrap();
    assert_eq!(app.state, AppState::Play(2));
    app.next(&[]).unwrap();
    assert_eq!(app.state, AppState::Play(2));
    let (ty, text) = app.prompt_at(2);
    assert_eq!((ty, text.as_str()), (0, "Game over!"));
    app.back();
    app.back();
    app.back();
    assert_eq!(app.state, AppState::SelectSettings);
    app.back();
    assert_eq!(app.state, AppState::SelectPack);
    app.back();
    assert_eq!(app.state, AppState::SelectPlayers);
    app.back();
    assert_eq!(app.state, AppState::SelectPlayers);
}

#[test]
fn failed_build_stays_on_settings() {
    let mut app = App::create();
    app.set_player(0, "Alice".to_string());
    app.remove_player(1);
    app.next(&[]).unwrap();
    app.next(&[]).unwrap();
    assert_eq!(app.state, AppState::SelectSettings);
    assert_eq!(app.next(&[]), Err(StoryError::ContentConfiguration));
    assert_eq!(app.state, AppState::SelectSettings);
}

#[test]
fn zero_settings_are_refused() {
    let mut app = App::create();
    assert!(!app.set_party_duration(0));
    assert!(!app.set_max_rule_duration(0));
    assert!(!app.set_party_duration(usize::MAX));
    assert_eq!(app.party_duration, 30);
    assert_eq!(app.max_rule_duration, 12);
    assert!(app.set_party_duration(5));
    assert_eq!(app.party_duration, 5);
}

#[test]
fn non_empty_names_keeps_order() {
    let v = vec!["a".to_string(), String::new(), "b".to_string(), String::new()];
    assert_eq!(non_empty_names(v), vec!["a".to_string(), "b".to_string()]);
}

#[test]
fn styles_by_category() {
    assert_eq!(prompt_style(2), (Some("Virus"), "#E6BB01"));
    assert_eq!(prompt_style(5), (Some("Pénalité Ultime"), "#E41100"));
    assert_eq!(prompt_style(14), (Some("Jeu"), "#00B506"));
    assert_eq!(prompt_style(7), (None, "#1C566B"));
}

#[test]
fn catalog_names_by_pack() {
    assert_eq!(Pack::Bar.catalog_name(), "fr-bar");
    assert_eq!(Pack::Default.catalog_name(), "fr-default");
    assert_eq!(Pack::War.catalog_name(), "fr-war");
}

#[test]
fn update_dispatches_and_reports_redraws() {
    let mut app = App::create();
    assert_eq!(app.update(AppMsg::OnPlayerChanged(0, "Alice".to_string()), &[]), Ok(false));
    assert_eq!(app.update(AppMsg::OnPlayerChanged(1, "Bob".to_string()), &[]), Ok(false));
    assert_eq!(app.update(AppMsg::AddPlayer, &[]), Ok(true));
    assert_eq!(app.players.len(), 3);
    assert_eq!(app.update(AppMsg::OnPlayerRemoved(2), &[]), Ok(true));
    assert_eq!(app.update(AppMsg::Next, &[]), Ok(true));
    assert_eq!(app.state, AppState::SelectPack);
    assert_eq!(app.update(AppMsg::OnPackSelected(Pack::Silly), &[]), Ok(true));
    assert_eq!(app.state, AppState::SelectSettings);
    assert_eq!(app.pack, Pack::Silly);
    assert_eq!(app.update(AppMsg::OnSettingChanged(Setting::PartyDuration, 4), &[]), Ok(false));
    assert_eq!(app.update(AppMsg::OnSettingChanged(Setting::MaxRuleDuration, 0), &[]), Ok(false));
    assert_eq!(app.party_duration, 4);
    assert_eq!(app.max_rule_duration, 12);
    assert_eq!(app.update(AppMsg::Next, &[]), Err(StoryError::ContentConfiguration));
    assert_eq!(app.state, AppState::SelectSettings);
    assert_eq!(app.update(AppMsg::Next, &catalog()), Ok(true));
    assert_eq!(app.state, AppState::Play(0));
    assert!(app.storyline.len() >= 4 && app.storyline.len() <= 5);
    assert_eq!(app.update(AppMsg::Back, &[]), Ok(true));
    assert_eq!(app.state, AppState::SelectSettings);
}
