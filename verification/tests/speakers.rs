use tinta_core::db::Participant;
use tinta_core::speakers::{count_named, remote_names, sorted_labels, speaker_names, LabelDecision, SpeakerEntry};

fn strings(list: &[&str]) -> Vec<String> {
    list.iter().map(|s| s.to_string()).collect()
}

fn person(id: &str, name: &str, is_self: bool) -> Participant {
    Participant { participant_id: id.to_string(), name: name.to_string(), is_self }
}

fn decision(label: &str, participant: Option<&str>, suggestion: Option<&str>) -> LabelDecision {
    LabelDecision {
        label: label.to_string(),
        participant: participant.map(str::to_string),
        suggestion: suggestion.map(str::to_string),
    }
}

#[test]
fn labels_are_sorted_once_each() {
    assert_eq!(sorted_labels(&strings(&["S2", "S1", "S2", "remote", "S10", "S1"])), strings(&["S1", "S10", "S2", "remote"]));
    assert_eq!(sorted_labels(&[]), Vec::<String>::new());
    assert_eq!(sorted_labels(&strings(&["é", "z", "a"])), strings(&["a", "z", "é"]));
}

#[test]
fn remote_speakers_take_the_names_of_their_participants() {
    let participants = vec![person("me", "Sam", true), person("a", "Alice", false), person("b", "Bob", false)];
    let decisions = vec![decision("S1", Some("a"), None), decision("S2", None, Some("b")), decision("S3", Some("gone"), None)];
    let labels = strings(&["S1", "S2", "S3", "S4"]);
    let speakers = remote_names(&labels, &decisions, &participants);
    assert_eq!(speakers.len(), 4);
    assert_eq!(speakers[0].label, "S1");
    assert_eq!(speakers[0].name.as_deref(), Some("Alice"));
    assert_eq!(speakers[0].name_source.as_deref(), Some("platform"));
    assert_eq!(speakers[0].suggestion, None);
    assert_eq!(speakers[1].name, None);
    assert_eq!(speakers[1].name_source, None);
    assert_eq!(speakers[1].suggestion.as_deref(), Some("Bob"));
    assert_eq!(speakers[2].name, None);
    assert_eq!(speakers[3].name, None);
    assert_eq!(speakers[3].suggestion, None);
    assert_eq!(count_named(&speakers), 1);
}

#[test]
fn a_repeated_participant_id_takes_the_last_name() {
    let participants = vec![person("a", "Alice", false), person("a", "Alice Smith", false)];
    let speakers = remote_names(&strings(&["S1"]), &[decision("S1", Some("a"), Some("a"))], &participants);
    assert_eq!(speakers[0].name.as_deref(), Some("Alice Smith"));
    assert_eq!(speakers[0].suggestion.as_deref(), Some("Alice Smith"));
}

fn entry(id: &str, name: Option<&str>, merged_into: Option<&str>) -> SpeakerEntry {
    SpeakerEntry { id: id.to_string(), name: name.map(str::to_string), merged_into: merged_into.map(str::to_string) }
}

fn pairs(list: &[(&str, &str)]) -> Vec<(String, String)> {
    list.iter().map(|(a, b)| (a.to_string(), b.to_string())).collect()
}

#[test]
fn unnamed_speakers_are_numbered_and_merged_speakers_show_their_target() {
    let ordered = vec![entry("s2", None, None), entry("s1", Some("Alice"), None), entry("s3", None, None)];
    let all = vec![
        entry("s1", Some("Alice"), None),
        entry("s2", None, None),
        entry("s3", None, None),
        entry("s4", Some("Old"), Some("s1")),
        entry("s5", None, Some("s3")),
        entry("s6", None, Some("gone")),
    ];
    assert_eq!(
        speaker_names(&ordered, &all),
        pairs(&[("s2", "Speaker 1"), ("s1", "Alice"), ("s3", "Speaker 2"), ("s4", "Alice"), ("s5", "Speaker 2")])
    );
}

#[test]
fn a_merge_into_a_merged_speaker_follows_the_earlier_merge() {
    let ordered = vec![entry("a", Some("Ana"), None)];
    let all = vec![entry("a", Some("Ana"), None), entry("b", None, Some("a")), entry("c", None, Some("b"))];
    assert_eq!(speaker_names(&ordered, &all), pairs(&[("a", "Ana"), ("b", "Ana"), ("c", "Ana")]));
}
