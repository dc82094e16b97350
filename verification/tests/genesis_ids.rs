use grc_20::genesis::{genesis_id, language_id, languages, properties, relation_types, types};
use grc_20::model::format_id;

#[test]
fn test_genesis_id_deterministic() {
    let id1 = genesis_id("Name");
    let id2 = genesis_id("Name");
    assert_eq!(id1, id2);
}

#[test]
fn test_genesis_id_unique() {
    let name_id = genesis_id("Name");
    let desc_id = genesis_id("Description");
    assert_ne!(name_id, desc_id);
}

#[test]
fn test_language_id_deterministic() {
    let en1 = language_id("en");
    let en2 = language_id("en");
    assert_eq!(en1, en2);
}

#[test]
fn test_genesis_id_format() {
    let id = genesis_id("Name");
    assert_eq!(id[6] & 0xF0, 0x80);
    assert_eq!(id[8] & 0xC0, 0x80);
}

#[test]
fn test_static_properties() {
    assert_eq!(properties::name(), genesis_id("Name"));
    assert_eq!(properties::description(), genesis_id("Description"));
    assert_eq!(properties::avatar(), genesis_id("Avatar"));
    assert_eq!(properties::url(), genesis_id("URL"));
    assert_eq!(properties::created(), genesis_id("Created"));
    assert_eq!(properties::modified(), genesis_id("Modified"));
}

#[test]
fn test_static_types() {
    assert_eq!(types::person(), genesis_id("Person"));
    assert_eq!(types::organization(), genesis_id("Organization"));
    assert_eq!(types::place(), genesis_id("Place"));
    assert_eq!(types::topic(), genesis_id("Topic"));
}

#[test]
fn test_static_relation_types() {
    assert_eq!(relation_types::types(), genesis_id("Types"));
    assert_eq!(relation_types::part_of(), genesis_id("PartOf"));
    assert_eq!(relation_types::related_to(), genesis_id("RelatedTo"));
}

#[test]
fn test_static_languages() {
    assert_eq!(languages::english(), language_id("en"));
    assert_eq!(languages::spanish(), language_id("es"));
    assert_eq!(languages::from_code("en"), languages::english());
}

#[test]
fn test_print_genesis_ids() {
    println!("=== Core Properties ===");
    println!("Name: {}", format_id(&properties::name()));
    println!("Description: {}", format_id(&properties::description()));
    println!("Avatar: {}", format_id(&properties::avatar()));
    println!("URL: {}", format_id(&properties::url()));
    println!("Created: {}", format_id(&properties::created()));
    println!("Modified: {}", format_id(&properties::modified()));

    println!("\n=== Core Types ===");
    println!("Person: {}", format_id(&types::person()));
    println!("Organization: {}", format_id(&types::organization()));
    println!("Place: {}", format_id(&types::place()));
    println!("Topic: {}", format_id(&types::topic()));

    println!("\n=== Core Relation Types ===");
    println!("Types: {}", format_id(&relation_types::types()));
    println!("PartOf: {}", format_id(&relation_types::part_of()));
    println!("RelatedTo: {}", format_id(&relation_types::related_to()));

    println!("\n=== Languages ===");
    println!("English (en): {}", format_id(&languages::english()));
    println!("Spanish (es): {}", format_id(&languages::spanish()));
    println!("French (fr): {}", format_id(&languages::french()));
}

#[test]
fn genesis_name_has_its_known_identifier() {
    assert_eq!(format_id(&genesis_id("Name")), "2ad099a0c19d863ba962736fc15ecd69");
    assert_eq!(format_id(&language_id("en")), "090adac0fca4822e8e719263e67620ec");
}

#[test]
fn every_language_accessor_matches_its_code() {
    assert_eq!(languages::french(), language_id("fr"));
    assert_eq!(languages::german(), language_id("de"));
    assert_eq!(languages::chinese(), language_id("zh"));
    assert_eq!(languages::japanese(), language_id("ja"));
    assert_eq!(languages::korean(), language_id("ko"));
    assert_eq!(languages::portuguese(), language_id("pt"));
    assert_eq!(languages::italian(), language_id("it"));
    assert_eq!(languages::russian(), language_id("ru"));
    assert_eq!(languages::arabic(), language_id("ar"));
    assert_eq!(languages::hindi(), language_id("hi"));
}
