use iuliia_rust::Schema;
use iuliia_rust::parse_by_schema;
use iuliia_rust::parse_ending;
use iuliia_rust::parse_word_by_schema;
use iuliia_rust::propagate_case_from_source;
use iuliia_rust::segment::split_words;

/// The wikipedia transliteration convention: plain letters, `е` after a
/// vowel, a sign or at word start becomes `ye`, `ьо` renders the soft sign
/// as `y`, and the endings `ий`/`ый` collapse to `y`.
fn wikipedia_schema() -> Schema {
    let mut schema = Schema::new();
    for (k, v) in [
        ("а", "a"),
        ("б", "b"),
        ("в", "v"),
        ("г", "g"),
        ("д", "d"),
        ("е", "e"),
        ("ё", "yo"),
        ("ж", "zh"),
        ("з", "z"),
        ("и", "i"),
        ("й", "y"),
        ("к", "k"),
        ("л", "l"),
        ("м", "m"),
        ("н", "n"),
        ("о", "o"),
        ("п", "p"),
        ("р", "r"),
        ("с", "s"),
        ("т", "t"),
        ("у", "u"),
        ("ф", "f"),
        ("х", "kh"),
        ("ц", "ts"),
        ("ч", "ch"),
        ("ш", "sh"),
        ("щ", "shch"),
        ("ъ", ""),
        ("ы", "y"),
        ("ь", ""),
        ("э", "e"),
        ("ю", "yu"),
        ("я", "ya"),
    ] {
        schema.add_letter(k, v);
    }
    for k in [
        "е", "ае", "ее", "ёе", "ие", "ое", "уе", "ые", "эе", "юе", "яе", "ъе", "ье",
    ] {
        schema.add_pref(k, "ye");
    }
    schema.add_next("ьо", "y");
    schema.add_ending("ий", "y");
    schema.add_ending("ый", "y");
    schema
}

#[test]
fn simple_word_test() {
    let schema = wikipedia_schema();
    for (original, expected) in [("б", "b"), ("пол", "pol")] {
        assert_eq!(parse_by_schema(original, &schema), expected);
    }
}

#[test]
fn prefix_word_test() {
    let schema = wikipedia_schema();
    for (original, expected) in [("ель", "yel")] {
        assert_eq!(parse_by_schema(original, &schema), expected);
    }
}

#[test]
fn postfix_word_test() {
    let schema = wikipedia_schema();
    for (original, expected) in [("бульон", "bulyon")] {
        assert_eq!(parse_by_schema(original, &schema), expected);
    }
}

#[test]
fn test_letter_case() {
    let schema = wikipedia_schema();
    for (original, expected) in [("ноГа", "noGa"), ("Рука", "Ruka")] {
        assert_eq!(parse_by_schema(original, &schema), expected);
    }
}

#[test]
fn test_ending() {
    let schema = wikipedia_schema();
    for (original, expected) in [("хороший", "khoroshy")] {
        assert_eq!(parse_by_schema(original, &schema), expected);
    }
}

#[test]
fn test_sentence() {
    let schema = wikipedia_schema();
    for (original, expected) in [
        (
            "Юлия, съешь ещё этих мягких французских булок из Йошкар-Олы, да выпей алтайского чаю",
            "Yuliya, syesh yeshchyo etikh myagkikh frantsuzskikh bulok iz Yoshkar-Oly, da vypey altayskogo chayu",
        ),
        ("ВЕЛИКИЙ", "VELIKY"),
    ] {
        assert_eq!(parse_by_schema(original, &schema), expected);
    }
}

#[test]
fn empty_input_yields_empty() {
    let schema = wikipedia_schema();
    assert_eq!(parse_by_schema("", &schema), "");
}

#[test]
fn punctuation_and_whitespace_pass_through() {
    let schema = wikipedia_schema();
    assert_eq!(parse_by_schema(" ,.-!? ", &schema), " ,.-!? ");
}

#[test]
fn unmapped_text_passes_through() {
    let schema = Schema::new();
    assert_eq!(parse_by_schema("Hello, мир!", &schema), "Hello, мир!");
}

#[test]
fn uppercase_ending_is_uppercased_whole() {
    let schema = wikipedia_schema();
    // Per-letter outputs get first-symbol casing ("х" -> "Kh"); the matched
    // ending "ИЙ" -> "y" is uppercased as a whole.
    assert_eq!(parse_word_by_schema("ХОРОШИЙ", &schema), "KhOROShY");
}

#[test]
fn short_words_never_match_endings() {
    let schema = wikipedia_schema();
    assert_eq!(parse_by_schema("ий", &schema), "iy");
    let two: Vec<char> = "ий".chars().collect();
    assert!(parse_ending(&two, &schema).is_none());
    let three: Vec<char> = "кий".chars().collect();
    let ending = parse_ending(&three, &schema).unwrap();
    assert_eq!(ending.translate, "y");
    assert_eq!(ending.ending_start, 1);
    assert_eq!(parse_by_schema("кий", &schema), "ky");
}

#[test]
fn one_letter_ending_beats_two_letter_ending() {
    let mut schema = wikipedia_schema();
    schema.add_ending("й", "j");
    assert_eq!(parse_by_schema("хороший", &schema), "khoroshij");
}

#[test]
fn previous_context_beats_next_context() {
    let mut schema = Schema::new();
    schema.add_letter("а", "a");
    schema.add_letter("б", "x");
    schema.add_letter("в", "v");
    schema.add_pref("аб", "p");
    schema.add_next("бв", "n");
    assert_eq!(parse_by_schema("абв", &schema), "apv");
}

#[test]
fn segmentation_reassembles_with_endings_applied_per_word() {
    let schema = wikipedia_schema();
    assert_eq!(
        parse_by_schema("хороший хороший", &schema),
        "khoroshy khoroshy"
    );
}

#[test]
fn split_words_is_lossless() {
    for input in ["Йошкар-Олы, да!", "", "  a_b1,c  ", "...", "слово"] {
        let segments = split_words(input);
        let rebuilt: String = segments.concat();
        assert_eq!(rebuilt, input);
    }
}

#[test]
fn propagate_case_rules() {
    assert_eq!(propagate_case_from_source("zh", "ж", true), "zh");
    assert_eq!(propagate_case_from_source("zh", "Ж", true), "Zh");
    assert_eq!(propagate_case_from_source("zh", "Ж", false), "ZH");
    assert_eq!(propagate_case_from_source("y", "ИЙ", false), "Y");
    assert_eq!(propagate_case_from_source("", "Б", true), "");
    assert_eq!(propagate_case_from_source("abc", "x", false), "abc");
}

#[test]
fn lookups_normalize_case_and_sentinel() {
    let schema = wikipedia_schema();
    assert_eq!(schema.get_letter("Б"), Some("b"));
    assert_eq!(schema.get_letter("$б"), Some("b"));
    assert_eq!(schema.get_pref("$Е"), Some("ye"));
    assert_eq!(schema.get_next("ЬО"), Some("y"));
    assert_eq!(schema.get_ending("ИЙ"), Some("y"));
    assert_eq!(schema.get_ending("ха"), None);
    assert_eq!(schema.get_pref("жж"), None);
    let empty = Schema::new();
    assert_eq!(empty.get_letter("б"), None);
}
