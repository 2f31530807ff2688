use anifunnel::massage::massaged;
use anifunnel::utils::chars_of;
use anifunnel::utils::remove_special_surrounding_characters;

fn massage_str(input: &str) -> String {
    let chars = chars_of(input);
    massaged(&chars).into_iter().collect()
}

#[test]
fn surrounding_brackets_removed() {
    assert_eq!(remove_special_surrounding_characters("[Oshi no Ko]"), "Oshi no Ko");
}

#[test]
fn surrounding_parentheses_kept() {
    assert_eq!(
        remove_special_surrounding_characters("(Oshi no Ko)"),
        "(Oshi no Ko)"
    );
}

#[test]
fn leading_numbers_kept() {
    assert_eq!(
        remove_special_surrounding_characters("2.5 Jigen no Ririsa"),
        "2.5 Jigen no Ririsa"
    );
}

#[test]
fn surrounding_quotes_removed() {
    assert_eq!(
        remove_special_surrounding_characters("\"Oshi no Ko\""),
        "Oshi no Ko"
    );
}

#[test]
fn trailing_note_removed() {
    assert_eq!(remove_special_surrounding_characters("Anne Happy♪"), "Anne Happy");
}

#[test]
fn special_character_between_kept() {
    assert_eq!(
        remove_special_surrounding_characters("Black★Rock Shooter"),
        "Black★Rock Shooter"
    );
}

#[test]
fn trailing_parenthesis_kept() {
    assert_eq!(
        remove_special_surrounding_characters("Girlfriend (Kari)"),
        "Girlfriend (Kari)"
    );
}

#[test]
fn special_character_between_japanese_kept() {
    assert_eq!(remove_special_surrounding_characters("らき☆すた"), "らき☆すた");
}

// Multi-byte input must be trimmed on character boundaries, without panicking.
#[test]
fn surrounding_quotes_japanese_removed() {
    assert_eq!(remove_special_surrounding_characters("【推しの子】"), "推しの子");
}

#[test]
fn trimming_is_idempotent_on_examples() {
    for input in [
        "[Oshi no Ko]",
        "(Oshi no Ko)",
        "【推しの子】",
        "\"Oshi no Ko\"",
        "Anne Happy♪",
        "",
        "♪",
        "♪♪",
    ] {
        let once = remove_special_surrounding_characters(input);
        let twice = remove_special_surrounding_characters(once);
        assert_eq!(once, twice);
    }
}

#[test]
fn massage_strips_year() {
    assert_eq!(massage_str("muv-luv alternative (2022)"), "muv-luv alternative");
    assert_eq!(massage_str("frieren 2024"), "frieren");
    assert_eq!(massage_str("frieren (2023"), "frieren");
    assert_eq!(massage_str("frieren 2023)"), "frieren");
}

#[test]
fn massage_strips_ordinal_season() {
    assert_eq!(massage_str("kanojo, okarishimasu 3rd season"), "kanojo, okarishimasu");
    assert_eq!(massage_str("mushoku tensei 21st season"), "mushoku tensei");
    assert_eq!(massage_str("spice and wolf 2nd season"), "spice and wolf");
}

#[test]
fn massage_strips_worded_decorations() {
    assert_eq!(massage_str("yuru camp (season 2)"), "yuru camp");
    assert_eq!(massage_str("yuru camp season 2"), "yuru camp");
    assert_eq!(massage_str("made in abyss (cour 2)"), "made in abyss");
    assert_eq!(massage_str("mob psycho 100 part 2"), "mob psycho 100");
}

#[test]
fn massage_strips_bare_trailing_digit() {
    assert_eq!(massage_str("working 3"), "working");
}

#[test]
fn massage_keeps_undecorated_titles() {
    assert_eq!(massage_str("steins;gate"), "steins;gate");
    // a year outside the 2020-2049 range is not a decoration
    assert_eq!(massage_str("evangelion (1995)"), "evangelion (1995)");
}
