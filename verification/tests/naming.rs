use be_generust::utils::{decimal, push_scanned, same_text, to_pascal_case};
use be_generust::walker::{make_label, Purpose};

#[test]
fn pascal_joins_capitalized_chunks() {
    assert_eq!(to_pascal_case("with_params"), "WithParams");
}

#[test]
fn pascal_of_a_single_chunk() {
    assert_eq!(to_pascal_case("single"), "Single");
}

#[test]
fn pascal_of_nothing_is_nothing() {
    assert_eq!(to_pascal_case(""), "");
}

#[test]
fn pascal_skips_empty_chunks() {
    assert_eq!(to_pascal_case("__a__b_"), "AB");
    assert_eq!(to_pascal_case("_"), "");
    assert_eq!(to_pascal_case("___"), "");
}

#[test]
fn pascal_keeps_the_remainder_of_a_chunk() {
    assert_eq!(to_pascal_case("hTTP_serVer"), "HTTPSerVer");
    assert_eq!(to_pascal_case("already_Pascal"), "AlreadyPascal");
}

#[test]
fn pascal_leaves_what_has_no_uppercase() {
    assert_eq!(to_pascal_case("1st_2nd"), "1st2nd");
}

#[test]
fn pascal_uppercases_beyond_ascii() {
    assert_eq!(to_pascal_case("\u{e9}t\u{e9}_\u{df}a"), "\u{c9}t\u{e9}SSa");
}

#[test]
fn pascal_is_the_same_on_every_call() {
    assert_eq!(to_pascal_case("some_name"), to_pascal_case("some_name"));
}

#[test]
fn decimal_has_no_padding() {
    assert_eq!(decimal(0), "0");
    assert_eq!(decimal(7), "7");
    assert_eq!(decimal(10), "10");
    assert_eq!(decimal(409), "409");
    assert_eq!(decimal(usize::MAX), usize::MAX.to_string());
}

#[test]
fn same_text_compares_whole_strings() {
    assert!(same_text("give", "give"));
    assert!(same_text("", ""));
    assert!(!same_text("give", "given"));
    assert!(!same_text("give", "gave"));
    assert!(!same_text("give", ""));
    assert!(same_text("\u{e9}", "\u{e9}"));
    assert!(!same_text("\u{e9}", "e"));
}

#[test]
fn labels_hold_index_and_purpose() {
    assert_eq!(make_label(0, Purpose::Start), "S0_Start");
    assert_eq!(make_label(1, Purpose::AfterGive), "S1_AfterGive");
    assert_eq!(make_label(12, Purpose::AfterGive), "S12_AfterGive");
    assert_eq!(make_label(13, Purpose::End), "S13_End");
}

#[test]
fn one_scanned_character_adds_its_share() {
    let mut result = "With".to_string();
    // an underscore adds nothing and begins a chunk
    assert!(push_scanned(&mut result, false, '_', ""));
    assert_eq!(result, "With");
    assert!(push_scanned(&mut result, true, '_', "_"));
    assert_eq!(result, "With");
    // the first character of a chunk adds its uppercase mapping
    assert!(!push_scanned(&mut result, true, 'p', "P"));
    assert_eq!(result, "WithP");
    assert!(!push_scanned(&mut result, true, '\u{df}', "SS"));
    assert_eq!(result, "WithPSS");
    // any other character adds itself
    assert!(!push_scanned(&mut result, false, 'a', "A"));
    assert_eq!(result, "WithPSSa");
}
