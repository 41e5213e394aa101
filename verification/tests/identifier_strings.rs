use crystal_surface_generator::chem::{get_atomic_number, is_metal, xyz_contains_metal};
use crystal_surface_generator::ionic::IonicReconstructor;
use crystal_surface_generator::mofid::{assemble_mofid, parse_mofid, MofIdError};

#[test]
fn assemble_simple_identifier() {
    let fragments = vec!["[Zn]".to_string(), "c1ccccc1".to_string()];
    let s = assemble_mofid(&fragments, "pcu", Some("1"), "sample", "NO_REF");
    assert_eq!(s, "[Zn].c1ccccc1 MOFid-v1.pcu.cat1.NO_REF;sample");
}

#[test]
fn assemble_without_catenation_writes_na() {
    let fragments = vec!["C".to_string()];
    let s = assemble_mofid(&fragments, "dia", None, "x", "NO_REF");
    assert_eq!(s, "C MOFid-v1.dia.NA.NO_REF;x");
}

#[test]
fn assemble_no_mof_catenation_kept_verbatim() {
    let fragments = vec!["C".to_string()];
    let s = assemble_mofid(&fragments, "NA", Some("no_mof"), "x", "NO_REF");
    assert_eq!(s, "C MOFid-v1.NA.no_mof.NO_REF;x");
}

#[test]
fn assemble_empty_fragments_marks_no_mof() {
    let fragments: Vec<String> = vec![];
    let s = assemble_mofid(&fragments, "NA", None, "x", "NO_REF");
    assert_eq!(s, "* MOFid-v1.NA.NAno_mof.NO_REF;x");
}

#[test]
fn parse_round_trips_assembled_identifier() {
    let fragments = vec!["[Zn]".to_string(), "c1ccccc1".to_string()];
    let s = assemble_mofid(&fragments, "pcu", Some("1"), "sample", "NO_REF");
    let d = parse_mofid(&s).unwrap();
    assert_eq!(d.name, "sample");
    assert_eq!(d.smiles, "[Zn].c1ccccc1");
    assert_eq!(d.smiles_part, vec!["[Zn]".to_string(), "c1ccccc1".to_string()]);
    assert_eq!(d.topology, "pcu");
    assert_eq!(d.base_topology, "pcu");
    assert_eq!(d.extra_topology, None);
    assert_eq!(d.catenation, Some("1".to_string()));
    assert_eq!(d.commit_ref, Some("NO_REF".to_string()));
}

#[test]
fn parse_composite_topology() {
    let d = parse_mofid("C MOFid-v1.pcu,dia.cat2;two").unwrap();
    assert_eq!(d.topology, "pcu,dia");
    assert_eq!(d.base_topology, "pcu");
    assert_eq!(d.extra_topology, Some("dia".to_string()));
    assert_eq!(d.catenation, Some("2".to_string()));
    assert_eq!(d.name, "two");
}

#[test]
fn parse_keeps_semicolons_in_name() {
    let d = parse_mofid("C MOFid-v1.dia.NA;a;b").unwrap();
    assert_eq!(d.name, "a;b");
}

#[test]
fn parse_missing_space_is_invalid_format() {
    let e = parse_mofid("justonefield;name").unwrap_err();
    assert_eq!(e, MofIdError::InvalidFormat);
}

#[test]
fn parse_wrong_version_is_unsupported() {
    let e = parse_mofid("C MOFid-v2.dia;n").unwrap_err();
    assert_eq!(e, MofIdError::UnsupportedVersion);
}

#[test]
fn metal_classification_by_atomic_number() {
    assert!(is_metal(26));
    assert!(is_metal(30));
    assert!(!is_metal(6));
    assert!(!is_metal(1));
    assert!(!is_metal(8));
}

#[test]
fn atomic_number_lookup_trims_and_matches() {
    assert_eq!(get_atomic_number("Fe"), Some(26));
    assert_eq!(get_atomic_number(" O "), Some(8));
    assert_eq!(get_atomic_number("Zr"), Some(40));
    assert_eq!(get_atomic_number("Xx"), None);
}

#[test]
fn nominal_charges_match_the_table() {
    assert_eq!(IonicReconstructor::nominal_charge("Na"), 1);
    assert_eq!(IonicReconstructor::nominal_charge("Mg"), 2);
    assert_eq!(IonicReconstructor::nominal_charge("Al"), 3);
    assert_eq!(IonicReconstructor::nominal_charge("Cl"), -1);
    assert_eq!(IonicReconstructor::nominal_charge("O"), -2);
    assert_eq!(IonicReconstructor::nominal_charge("N"), -3);
    assert_eq!(IonicReconstructor::nominal_charge("C"), 0);
}

#[test]
fn xyz_scan_spots_metals_after_header() {
    let water = "3\nwater\nO 0.0 0.0 0.0\nH 0.7 0.0 0.5\nH -0.7 0.0 0.5";
    assert!(!xyz_contains_metal(water));
    let salt = "2\nsalt\nNa 0.0 0.0 0.0\nCl 2.8 0.0 0.0";
    assert!(xyz_contains_metal(salt));
    // unknown symbols outside the common organic set count as metal
    let exotic = "1\nx\nUup 0.0 0.0 0.0";
    assert!(xyz_contains_metal(exotic));
    // the two header lines are never classified
    let header_only = "Fe\nFe";
    assert!(!xyz_contains_metal(header_only));
}
