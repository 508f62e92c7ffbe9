use fixme::classify::IssueKind;
use fixme::config::{
    default_profile_default, label_name_fixme_default, label_name_todo_default,
    label_names_default, ConfigError, ConfigFile, LabelNames, Profile,
};
use fixme::linear::{
    creation_outcome, select_labels, CreateError, IdentifierError, IssueIdentifier, IssueLabel,
    LabelError,
};

fn profile(name: &str) -> Profile {
    Profile { name: name.to_string(), api_key: format!("key-{}", name) }
}

fn label(id: &str, name: &str) -> IssueLabel {
    IssueLabel { id: id.to_string(), name: name.to_string() }
}

#[test]
fn default_label_names() {
    let names = label_names_default();
    assert_eq!(names.label_rename_for(IssueKind::FIXME), "FIXME");
    assert_eq!(names.label_rename_for(IssueKind::TODO), "TODO");
    assert_eq!(label_name_fixme_default(), "FIXME");
    assert_eq!(label_name_todo_default(), "TODO");
    assert!(default_profile_default().is_none());
}

#[test]
fn label_rename_for_custom_names() {
    let names = LabelNames { fixme: "bug".to_string(), todo: "later".to_string() };
    assert_eq!(names.label_rename_for(IssueKind::FIXME), "bug");
    assert_eq!(names.label_rename_for(IssueKind::TODO), "later");
}

#[test]
fn config_takes_last_profile() {
    let file = ConfigFile { profiles: vec![profile("a"), profile("b")], label_names: label_names_default() };
    let config = file.into_config().unwrap();
    assert_eq!(config.profile.name, "b");
    assert_eq!(config.profile.api_key, "key-b");
    assert_eq!(config.label_names.fixme, "FIXME");
}

#[test]
fn config_without_profiles_fails() {
    let file = ConfigFile { profiles: vec![], label_names: label_names_default() };
    assert_eq!(file.into_config().unwrap_err(), ConfigError::NoProfiles);
}

#[test]
fn labels_are_chosen_by_name() {
    let names = label_names_default();
    let available = vec![label("1", "Bug"), label("2", "TODO"), label("3", "FIXME"), label("4", "FIXME")];
    let labels = select_labels(&names, &available).unwrap();
    assert_eq!(labels.len(), 2);
    assert_eq!(labels[0].kind, IssueKind::FIXME);
    assert_eq!(labels[0].label_id, "3");
    assert_eq!(labels[1].kind, IssueKind::TODO);
    assert_eq!(labels[1].label_id, "2");
}

#[test]
fn missing_labels_are_reported_in_order() {
    let names = label_names_default();
    let none: Vec<IssueLabel> = vec![];
    assert_eq!(select_labels(&names, &none).unwrap_err(), LabelError::Missing(IssueKind::FIXME));
    let only_fixme = vec![label("1", "FIXME")];
    assert_eq!(select_labels(&names, &only_fixme).unwrap_err(), LabelError::Missing(IssueKind::TODO));
    let only_todo = vec![label("1", "TODO")];
    assert_eq!(select_labels(&names, &only_todo).unwrap_err(), LabelError::Missing(IssueKind::FIXME));
}

#[test]
fn identifier_parses() {
    let id = IssueIdentifier::parse("ENG-123").unwrap();
    assert_eq!(id.prefix(), "ENG");
    assert_eq!(id.num(), 123);
    let id = IssueIdentifier::parse("A-+7").unwrap();
    assert_eq!(id.prefix(), "A");
    assert_eq!(id.num(), 7);
    let id = IssueIdentifier::parse("-4294967295").unwrap();
    assert_eq!(id.prefix(), "");
    assert_eq!(id.num(), 4294967295);
}

#[test]
fn identifier_from_str() {
    let id: IssueIdentifier = "OPS-42".parse().unwrap();
    assert_eq!(id.prefix(), "OPS");
    assert_eq!(id.num(), 42);
    assert_eq!("OPS".parse::<IssueIdentifier>().unwrap_err(), IdentifierError::NoDash);
}

#[test]
fn identifier_errors() {
    assert_eq!(IssueIdentifier::parse("ENG123").unwrap_err(), IdentifierError::NoDash);
    assert_eq!(IssueIdentifier::parse("").unwrap_err(), IdentifierError::NoDash);
    assert_eq!(IssueIdentifier::parse("ENG-").unwrap_err(), IdentifierError::InvalidNumber);
    assert_eq!(IssueIdentifier::parse("ENG-+").unwrap_err(), IdentifierError::InvalidNumber);
    assert_eq!(IssueIdentifier::parse("ENG-1x").unwrap_err(), IdentifierError::InvalidNumber);
    assert_eq!(IssueIdentifier::parse("A-B-3").unwrap_err(), IdentifierError::InvalidNumber);
    assert_eq!(IssueIdentifier::parse("ENG-4294967296").unwrap_err(), IdentifierError::InvalidNumber);
}

#[test]
fn creation_outcomes() {
    assert_eq!(creation_outcome(None).unwrap_err(), CreateError::NotCreated);
    let id = creation_outcome(Some("ENG-9")).unwrap();
    assert_eq!(id.prefix(), "ENG");
    assert_eq!(id.num(), 9);
    assert_eq!(
        creation_outcome(Some("bad")).unwrap_err(),
        CreateError::BadIdentifier(IdentifierError::NoDash)
    );
}
