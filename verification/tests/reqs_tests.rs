//! Profile selection and the requirement-check listing.

use bot::engine::{reqs_reply, select_profile, ProfileEntry};
use bot::reqs::ReqField;
use bot::engine::settings_reqs_set;
use bot::settings::ServerConfig;

fn profiles() -> Vec<ProfileEntry> {
    vec![
        ProfileEntry { cute_name: Some(String::from("Apple")), selected: false },
        ProfileEntry { cute_name: Some(String::from("Banana")), selected: true },
        ProfileEntry { cute_name: None, selected: false },
    ]
}

#[test]
fn a_named_profile_is_selected_exactly() {
    assert_eq!(select_profile(&profiles(), &String::from("Apple")), Some(0));
    assert_eq!(select_profile(&profiles(), &String::from("Banana")), Some(1));
    assert_eq!(select_profile(&profiles(), &String::from("banana")), None);
    assert_eq!(select_profile(&profiles(), &String::from("Cherry")), None);
}

#[test]
fn without_a_name_the_last_played_profile_is_selected() {
    assert_eq!(select_profile(&profiles(), &String::from("")), Some(1));
    let none_selected = vec![ProfileEntry { cute_name: Some(String::from("A")), selected: false }];
    assert_eq!(select_profile(&none_selected, &String::from("")), None);
    assert_eq!(select_profile(&Vec::new(), &String::from("")), None);
}

#[test]
fn reqs_reply_lists_each_configured_guild() {
    let mut doc = ServerConfig::new();
    settings_reqs_set(&mut doc, String::from("Sky"), ReqField::Slayer, 1);
    settings_reqs_set(&mut doc, String::from("Sky"), ReqField::Skills, 2);
    settings_reqs_set(&mut doc, String::from("Sky"), ReqField::Catacombs, 3);
    settings_reqs_set(&mut doc, String::from("Sky"), ReqField::Weight, 4);
    settings_reqs_set(&mut doc, String::from("Moon"), ReqField::Weight, 9);
    let reply = reqs_reply(&profiles(), &String::from("Apple"), &doc).expect("profile found");
    assert_eq!(
        reply,
        "\n  \u{2022} Sky: slayer = 1, skills = 2, cata = 3, weight = 4\
         \n  \u{2022} Moon: slayer = 0, skills = 0, cata = 0, weight = 9"
    );
}

#[test]
fn reqs_reply_without_a_profile_is_an_error() {
    let doc = ServerConfig::new();
    let err = reqs_reply(&Vec::new(), &String::from(""), &doc).expect_err("no profile");
    assert_eq!(err, "No profile found");
    let err2 = reqs_reply(&profiles(), &String::from("Cherry"), &doc).expect_err("no such name");
    assert_eq!(err2, "No profile found");
}

#[test]
fn timestamps_are_non_negative() {
    assert!(bot::utils::get_timestamp_millis() >= 0);
}
