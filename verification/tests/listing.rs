use collector::listing::{ArtifactListing, CATEGORY_WIDTH};
use collector::parser::{Artifact, Metadata, YamlArtifact};

fn doc(name: &str, category: Option<&str>, target: bool) -> YamlArtifact {
    YamlArtifact {
        metadata: Metadata {
            name: name.to_string(),
            description: "d".to_string(),
            date: None,
            category: category.map(|c| c.to_string()),
            source: None,
        },
        artifact: Artifact {
            path: if target { Some(vec!["p".to_string()]) } else { None },
            group: if target { None } else { Some(vec!["g".to_string()]) },
        },
    }
}

fn listing() -> ArtifactListing {
    ArtifactListing::load(vec![
        doc("MFT", Some("System"), true),
        doc("Prefetch", Some("Execution"), true),
        doc("All", None, false),
        doc("EVTX", Some("System"), true),
        doc("Lnk", Some("Other"), true),
        doc("Web", None, false),
    ])
}

#[test]
fn load_keeps_the_documents() {
    assert_eq!(listing().artifact_struct_list.len(), 6);
    assert_eq!(listing().artifact_struct_list[2].metadata.name, "All");
}

#[test]
fn names_of_targets_and_groups() {
    assert_eq!(listing().names_pa(), vec!["MFT", "Prefetch", "EVTX", "Lnk"]);
    assert_eq!(listing().names_gr(), vec!["All", "Web"]);
}

#[test]
fn categories_in_order_of_first_appearance() {
    let cats = listing().list_categories();
    assert_eq!(cats.len(), 3);
    assert_eq!(cats[0].category_name(), "System");
    assert_eq!(cats[0].names(), &vec!["MFT".to_string(), "EVTX".to_string()]);
    assert_eq!(cats[1].category_name(), "Execution");
    assert_eq!(cats[1].names(), &vec!["Prefetch".to_string()]);
    assert_eq!(cats[2].category_name(), "Other");
    assert_eq!(cats[2].names(), &vec!["All".to_string(), "Lnk".to_string(), "Web".to_string()]);
}

#[test]
fn categories_partition_the_documents() {
    let cats = listing().list_categories();
    let total: usize = cats.iter().map(|c| c.names().len()).sum();
    assert_eq!(total, 6);
    for (i, a) in cats.iter().enumerate() {
        assert!(!a.names().is_empty());
        for b in cats.iter().skip(i + 1) {
            assert_ne!(a.category_name(), b.category_name());
        }
    }
}

#[test]
fn empty_listing() {
    let l = ArtifactListing::load(Vec::new());
    assert!(l.names_pa().is_empty());
    assert!(l.names_gr().is_empty());
    assert!(l.list_categories().is_empty());
}

#[test]
fn display_text_aligns_the_category() {
    let cats = listing().list_categories();
    let expected = format!("{:>20} | {}\n{:>20} | {}\n", "System", "MFT", "", "EVTX");
    assert_eq!(cats[0].display_text(), expected);
    assert_eq!(CATEGORY_WIDTH, 20);
    assert_eq!(cats[1].display_text(), "           Execution | Prefetch\n");
}

#[test]
fn display_text_of_a_long_category_is_not_cut() {
    let l = ArtifactListing::load(vec![doc("x", Some("ACategoryLongerThanTwenty"), true)]);
    let cats = l.list_categories();
    assert_eq!(cats[0].display_text(), "ACategoryLongerThanTwenty | x\n");
}

#[test]
fn every_accepted_document_is_a_target_or_a_group() {
    let l = listing();
    assert_eq!(l.names_pa().len() + l.names_gr().len(), l.artifact_struct_list.len());
}
