use collector::parser::{
    check_artifact, Artifact, DocumentError, Metadata, SelectError, YamlArtifact, YamlParser,
};

fn doc(name: &str, path: Option<Vec<&str>>, group: Option<Vec<&str>>) -> YamlArtifact {
    YamlArtifact {
        metadata: Metadata {
            name: name.to_string(),
            description: String::new(),
            date: None,
            category: None,
            source: None,
        },
        artifact: Artifact {
            path: path.map(|v| v.into_iter().map(|s| s.to_string()).collect()),
            group: group.map(|v| v.into_iter().map(|s| s.to_string()).collect()),
        },
    }
}

fn names(v: &[&str]) -> Vec<String> {
    v.iter().map(|s| s.to_string()).collect()
}

fn docs() -> Vec<YamlArtifact> {
    vec![
        doc("A", Some(vec!["p1", "p2"]), None),
        doc("B", Some(vec!["p2", "p3"]), None),
        doc("G", None, Some(vec!["A", "B"])),
        doc("C", None, Some(vec!["G", "A"])),
        doc("A", Some(vec!["other"]), None),
    ]
}

#[test]
fn new_builds_the_resource_pattern() {
    assert_eq!(YamlParser::new("res".to_string()).ressource_path, "res\\**/*.yaml");
    assert_eq!(YamlParser::new("res\\".to_string()).ressource_path, "res\\**/*.yaml");
    assert_eq!(YamlParser::new(String::new()).ressource_path, "\\**/*.yaml");
}

#[test]
fn select_follows_groups_and_keeps_each_path_once() {
    let mut p = YamlParser::new(".\\ressources\\".to_string());
    let r = p.select_artifact(names(&["G"]), docs());
    assert_eq!(r, names(&["p1", "p2", "p3"]));
    let r = p.select_artifact(names(&["C"]), docs());
    assert_eq!(r, names(&["p1", "p2", "p3"]));
}

#[test]
fn select_takes_the_first_document_of_a_name() {
    let mut p = YamlParser::new("r".to_string());
    assert_eq!(p.select_artifact(names(&["A"]), docs()), names(&["p1", "p2"]));
}

#[test]
fn select_accumulates_over_calls() {
    let mut p = YamlParser::new("r".to_string());
    assert_eq!(p.select_artifact(names(&["B"]), docs()), names(&["p2", "p3"]));
    assert_eq!(p.select_artifact(names(&["A"]), docs()), names(&["p2", "p3", "p1"]));
}

#[test]
fn select_twice_changes_nothing() {
    let mut p = YamlParser::new("r".to_string());
    let first = p.select_artifact(names(&["C", "B"]), docs());
    let second = p.select_artifact(names(&["C", "B"]), docs());
    assert_eq!(first, second);
}

#[test]
fn select_of_nothing_selects_nothing() {
    let mut p = YamlParser::new("r".to_string());
    assert!(p.select_artifact(Vec::new(), docs()).is_empty());
}

#[test]
fn try_select_reports_a_missing_name_and_keeps_the_selection() {
    let mut p = YamlParser::new("r".to_string());
    p.select_artifact(names(&["B"]), docs());
    let r = p.try_select_artifact(names(&["A", "Z"]), docs());
    assert_eq!(r, Err(SelectError::NameNotFound("Z".to_string())));
    assert_eq!(p.try_select_artifact(Vec::new(), docs()), Ok(names(&["p2", "p3"])));
}

#[test]
fn try_select_reports_a_missing_group_member() {
    let mut p = YamlParser::new("r".to_string());
    let d = vec![doc("G", None, Some(vec!["A", "nope"])), doc("A", Some(vec!["x"]), None)];
    assert_eq!(
        p.try_select_artifact(names(&["G"]), d),
        Err(SelectError::NameNotFound("nope".to_string()))
    );
}

#[test]
fn try_select_reports_a_cycle() {
    let mut p = YamlParser::new("r".to_string());
    let d = vec![doc("X", None, Some(vec!["Y"])), doc("Y", None, Some(vec!["X"]))];
    assert_eq!(
        p.try_select_artifact(names(&["X"]), d),
        Err(SelectError::CyclicGroup("X".to_string()))
    );
}

#[test]
fn try_select_succeeds_as_select_does() {
    let mut p = YamlParser::new("r".to_string());
    assert_eq!(p.try_select_artifact(names(&["C"]), docs()), Ok(names(&["p1", "p2", "p3"])));
}

#[test]
fn check_artifact_wants_exactly_one_of_path_and_group() {
    assert_eq!(check_artifact(&doc("a", Some(vec!["p"]), None)), Ok(()));
    assert_eq!(check_artifact(&doc("a", None, Some(vec!["g"]))), Ok(()));
    assert_eq!(check_artifact(&doc("a", None, None)), Err(DocumentError::NoPathNorGroup));
    assert_eq!(
        check_artifact(&doc("a", Some(vec!["p"]), Some(vec!["g"]))),
        Err(DocumentError::BothPathAndGroup)
    );
}

#[test]
fn select_in_two_calls_equals_select_of_both_lists() {
    let mut p = YamlParser::new("r".to_string());
    p.select_artifact(names(&["B"]), docs());
    let split = p.select_artifact(names(&["G", "A"]), docs());
    let mut q = YamlParser::new("r".to_string());
    let joined = q.select_artifact(names(&["B", "G", "A"]), docs());
    assert_eq!(split, joined);
    assert_eq!(joined, names(&["p2", "p3", "p1"]));
}

#[test]
fn selections_in_turn_never_repeat_a_path() {
    let mut p = YamlParser::new("r".to_string());
    p.select_artifact(names(&["A"]), docs());
    assert!(p.try_select_artifact(names(&["B", "missing"]), docs()).is_err());
    p.select_artifact(names(&["C"]), docs());
    let all = p.select_artifact(names(&["B", "A"]), docs());
    assert_eq!(all, names(&["p1", "p2", "p3"]));
    for (i, a) in all.iter().enumerate() {
        assert!(!all[i + 1..].contains(a));
    }
}
