use jmdictdb::entity::{resolve_entities, EntityTable, ENTITY_PATTERN};
use jmdictdb::error::DictError;
use jmdictdb::references::{closes_references, resolve_exhaustively};
use jmdictdb::text::holds_char;

const DOCUMENT: &str = "<!DOCTYPE JMdict [\n<!ENTITY n \"noun\">\n<!ENTITY nn \"proper noun\">\n<!ENTITY v1 \"Ichidan verb\">\n]>\n<JMdict><pos>&n;</pos><pos>&nn;</pos><misc a=\"&v1;\">&n;&nn;&n;</misc></JMdict>";

fn some(s: &str) -> Option<String> {
    Some(s.to_string())
}

#[test]
fn declarations_are_found_in_order() {
    let table = EntityTable::scan(DOCUMENT).unwrap();
    assert_eq!(table.len(), 3);
    assert_eq!(table.value_of("n"), some("noun"));
    assert_eq!(table.value_of("nn"), some("proper noun"));
    assert_eq!(table.value_of("v1"), some("Ichidan verb"));
    assert_eq!(table.value_of("v"), None);
}

#[test]
fn references_are_replaced_everywhere() {
    let out = resolve_entities(DOCUMENT).unwrap();
    assert!(!out.contains("&n;"));
    assert!(!out.contains("&nn;"));
    assert!(!out.contains("&v1;"));
    assert!(out.contains("<pos>noun</pos><pos>proper noun</pos>"));
    assert!(out.contains("<misc a=\"Ichidan verb\">nounproper nounnoun</misc>"));
    assert!(out.starts_with("<!DOCTYPE JMdict [\n<!ENTITY n \"noun\">"));
}

#[test]
fn a_longer_name_is_not_cut_by_a_shorter_one() {
    let xml = "<!ENTITY n \"noun\"><!ENTITY nn \"name\">[&nn;][&n;][&nnn;]";
    let out = resolve_entities(xml).unwrap();
    assert_eq!(out, "<!ENTITY n \"noun\"><!ENTITY nn \"name\">[name][noun][&nnn;]");
}

#[test]
fn a_text_without_declarations_stays_as_it_is() {
    let xml = "<a>&n; &amp; <!ENTITY broken></a>";
    assert_eq!(EntityTable::scan(xml).unwrap().len(), 0);
    assert_eq!(resolve_entities(xml).unwrap(), xml);
    assert_eq!(resolve_entities("").unwrap(), "");
}

#[test]
fn undeclared_references_are_left() {
    let xml = "<!ENTITY n \"noun\"> &amp; &lt; &n; &m;";
    assert_eq!(resolve_entities(xml).unwrap(), "<!ENTITY n \"noun\"> &amp; &lt; noun &m;");
}

#[test]
fn a_later_declaration_of_a_name_wins() {
    let xml = "<!ENTITY n \"noun\"><!ENTITY v \"verb\"><!ENTITY n \"name\">&n;&v;";
    let table = EntityTable::scan(xml).unwrap();
    assert_eq!(table.len(), 2);
    assert_eq!(table.value_of("n"), some("name"));
    assert!(resolve_entities(xml).unwrap().ends_with("nameverb"));
}

#[test]
fn declarations_may_spread_over_lines() {
    let xml = "<!ENTITY\tadj-i\n  \"adjective\n(keiyoushi)\">&adj-i;";
    let table = EntityTable::scan(xml).unwrap();
    assert_eq!(table.value_of("adj-i"), some("adjective\n(keiyoushi)"));
}

#[test]
fn entities_are_applied_in_the_order_of_the_table() {
    let mut table = EntityTable::new();
    table.declare("a", "&b;");
    table.declare("b", "x");
    assert_eq!(table.apply("&a;"), "x");
    let mut other = EntityTable::new();
    other.declare("b", "x");
    other.declare("a", "&b;");
    assert_eq!(other.apply("&a;"), "&b;");
}

#[test]
fn an_empty_table_changes_nothing() {
    let table = EntityTable::new();
    assert_eq!(table.len(), 0);
    assert_eq!(table.apply("&n; stays"), "&n; stays");
}

#[test]
fn declaring_again_keeps_the_place() {
    let mut table = EntityTable::new();
    table.declare("n", "noun");
    table.declare("v", "verb");
    table.declare("n", "name");
    assert_eq!(table.len(), 2);
    assert_eq!(table.value_of("n"), some("name"));
    assert_eq!(table.value_of("v"), some("verb"));
}

#[test]
fn matches_without_both_groups_add_nothing() {
    let matches = vec![
        vec![some("whole"), some("n"), some("noun")],
        vec![some("whole"), some("v")],
        vec![some("whole"), None, some("x")],
        vec![some("whole"), some("y"), None],
        vec![],
        vec![some("whole"), some("a"), some("adj"), some("more")],
    ];
    let table = EntityTable::from_groups(&matches);
    assert_eq!(table.len(), 2);
    assert_eq!(table.value_of("n"), some("noun"));
    assert_eq!(table.value_of("a"), some("adj"));
    assert_eq!(table.value_of("v"), None);
}

#[test]
fn a_pattern_of_ones_own_can_be_used() {
    let table = EntityTable::scan_with("(\\w+)=(\\w+)", "n=noun, v=verb").unwrap();
    assert_eq!(table.len(), 2);
    assert_eq!(table.value_of("v"), some("verb"));
    assert_eq!(EntityTable::scan_with(ENTITY_PATTERN, "<!ENTITY n \"noun\">").unwrap().len(), 1);
}

#[test]
fn a_bad_pattern_is_refused() {
    assert!(matches!(EntityTable::scan_with("(", "text"), Err(DictError::Pattern)));
}

#[test]
fn a_character_is_found_in_a_text() {
    assert!(holds_char("a&b", '&'));
    assert!(holds_char("する", 'る'));
    assert!(!holds_char("a&b", ';'));
    assert!(!holds_char("", '&'));
}

#[test]
fn plain_tables_are_told_from_others() {
    let mut table = EntityTable::new();
    assert!(table.is_plain());
    table.declare("n", "noun; common");
    table.declare("adj-i", "adjective (keiyoushi)");
    assert!(table.is_plain());
    let mut amp_in_value = EntityTable::new();
    amp_in_value.declare("n", "noun & name");
    assert!(!amp_in_value.is_plain());
    let mut amp_in_name = EntityTable::new();
    amp_in_name.declare("n&m", "noun");
    assert!(!amp_in_name.is_plain());
    let mut semicolon_in_name = EntityTable::new();
    semicolon_in_name.declare("n", "noun");
    semicolon_in_name.declare("n;m", "noun");
    assert!(!semicolon_in_name.is_plain());
}

#[test]
fn closed_references_are_told_from_open_ones() {
    assert!(closes_references(""));
    assert!(closes_references("no ampersand; at all"));
    assert!(closes_references("&n;"));
    assert!(closes_references("a &amp; b &n; c;"));
    assert!(closes_references("&;"));
    assert!(closes_references("&a b;"));
    assert!(!closes_references("&"));
    assert!(!closes_references("a & b"));
    assert!(!closes_references("&&a;;"));
    assert!(!closes_references("&a&b;"));
    assert!(!closes_references("&a; &b"));
}

#[test]
fn no_declared_reference_outlives_a_plain_table() {
    let text = "&a;&b;&c; &amp; x;&b;y &d; &aa;";
    let mut table = EntityTable::new();
    table.declare("b", "a;");
    table.declare("a", "b");
    table.declare("c", ";c;a;b;");
    assert!(table.is_plain());
    assert!(closes_references(text));
    let out = table.apply(text);
    assert_eq!(out, "ba;;c;a;b; &amp; x;a;y &d; &aa;");
    for name in ["a", "b", "c"] {
        assert!(!out.contains(&format!("&{};", name)));
    }
}

#[test]
fn a_reference_may_outlive_a_text_with_an_open_ampersand() {
    let mut table = EntityTable::new();
    table.declare("a", "a");
    assert!(table.is_plain());
    assert!(!closes_references("&&a;;"));
    assert_eq!(table.apply("&&a;;"), "&a;");
}

#[test]
fn a_sound_document_is_resolved_exhaustively() {
    let out = resolve_exhaustively(DOCUMENT).unwrap();
    assert_eq!(out, resolve_entities(DOCUMENT).unwrap());
    for name in ["n", "nn", "v1"] {
        assert!(!out.contains(&format!("&{};", name)));
    }
    assert_eq!(resolve_exhaustively("no entities &amp; none declared").unwrap(), "no entities &amp; none declared");
}

#[test]
fn a_table_that_is_not_plain_is_refused() {
    assert_eq!(resolve_exhaustively("<!ENTITY n \"noun & name\">&n;"), Err(DictError::Entities));
    assert_eq!(resolve_exhaustively("<!ENTITY n;m \"noun\">&n;"), Err(DictError::Entities));
    assert_eq!(resolve_exhaustively("<!ENTITY a \"&b;\"><!ENTITY b \"x\">&a;"), Err(DictError::Entities));
    assert_eq!(resolve_exhaustively("<!ENTITY n \"a & b\"> c & d"), Err(DictError::Entities));
}

#[test]
fn a_text_with_an_open_ampersand_is_refused() {
    assert_eq!(resolve_exhaustively("<!ENTITY n \"noun\"> a & b &n;"), Err(DictError::Ampersand));
    assert_eq!(resolve_exhaustively("<!ENTITY a \"a\">&&a;;"), Err(DictError::Ampersand));
    assert_eq!(resolve_exhaustively("&"), Err(DictError::Ampersand));
}
