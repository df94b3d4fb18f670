use projectm_rs::preset::parser::{leading_float_text, parse_leading_int, PresetFile};

/// The float value of a key, as a reader of presets takes it: the numeric
/// text the value starts with, converted.
fn get_float(f: &PresetFile, key: &str, default: f32) -> f32 {
    f.get_float_text(key).and_then(|t| t.parse().ok()).unwrap_or(default)
}

#[test]
fn parses_key_value_pairs() {
    let f = PresetFile::parse("zoom=1.5\nrot 0.25\nfDecay=0.98").unwrap();
    assert_eq!(get_float(&f, "zoom", 0.0), 1.5);
    assert_eq!(get_float(&f, "rot", 0.0), 0.25); // space delimiter
    assert_eq!(get_float(&f, "fdecay", 0.0), 0.98); // case-insensitive key
}

#[test]
fn first_occurrence_wins() {
    let f = PresetFile::parse("zoom=1.0\nzoom=2.0").unwrap();
    assert_eq!(get_float(&f, "zoom", 0.0), 1.0);
}

#[test]
fn leading_numeric_prefix() {
    let f = PresetFile::parse("x=1.5xyz\ny=42 comment").unwrap();
    assert_eq!(get_float(&f, "x", 0.0), 1.5);
    assert_eq!(f.get_int("y", 0), 42);
}

#[test]
fn float_text_forms() {
    assert_eq!(leading_float_text("  -1.25e+3x").as_deref(), Some("-1.25e+3"));
    assert_eq!(leading_float_text("5.").as_deref(), Some("5."));
    assert_eq!(leading_float_text(".5e").as_deref(), Some(".5"));
    assert_eq!(leading_float_text("2E-"), Some("2".to_string()));
    assert_eq!(leading_float_text("+.e3"), None);
    assert_eq!(leading_float_text(""), None);
    let f = PresetFile::parse("a=abc").unwrap();
    assert_eq!(f.get_float_text("a"), None);
    assert_eq!(f.get_float_text("missing"), None);
}

#[test]
fn get_code_concatenates_numbered_lines() {
    let src = "per_frame_1=`zoom = 1.0 + 0.1*bass;\nper_frame_2=`rot = rot + 0.01;\nper_frame_3=`wave_r = 0.5;";
    let f = PresetFile::parse(src).unwrap();
    let code = f.get_code("per_frame_");
    assert_eq!(code, "zoom = 1.0 + 0.1*bass;\nrot = rot + 0.01;\nwave_r = 0.5;\n");
}

#[test]
fn get_code_stops_at_gap() {
    // per_frame_3 missing -> only 1 and 2 are collected.
    let f = PresetFile::parse("per_frame_1=a;\nper_frame_2=b;\nper_frame_4=d;").unwrap();
    assert_eq!(f.get_code("per_frame_"), "a;\nb;\n");
}

#[test]
fn get_code_statements_inserts_separators() {
    // Lines without trailing ';' get one; a line ending in '+' is joined.
    let src = "per_frame_1=`xspeed = 0.5\nper_frame_2=`yspeed = 0.3\nper_frame_3=`zoom = 1.0 +\nper_frame_4=`0.1 * bass";
    let f = PresetFile::parse(src).unwrap();
    let code = f.get_code_statements("per_frame_");
    assert_eq!(code, "xspeed = 0.5;\nyspeed = 0.3;\nzoom = 1.0 +\n0.1 * bass;\n");
}

#[test]
fn get_code_statements_preserves_existing_semicolons() {
    let f = PresetFile::parse("per_frame_1=`a = 1; b = 2;").unwrap();
    assert_eq!(f.get_code_statements("per_frame_"), "a = 1; b = 2;\n");
}

#[test]
fn bool_and_defaults() {
    let f = PresetFile::parse("on=1\noff=0").unwrap();
    assert!(f.get_bool("on", false));
    assert!(!f.get_bool("off", true));
    assert!(f.get_bool("missing", true)); // default used
}

#[test]
fn rejects_binary() {
    assert!(PresetFile::parse("zoom=1\0\x01binary").is_none());
}

#[test]
fn first_occurrence_of_a_key_wins() {
    let f = PresetFile::parse("zoom=1.0\nZOOM=2.0").unwrap();
    assert_eq!(f.get_string("zoom", "x"), "1.0");
    assert_eq!(f.get_string("Zoom", "x"), "1.0");
}

#[test]
fn space_is_a_delimiter_and_keys_are_lowercased() {
    let f = PresetFile::parse("Rot 0.25\nfDecay=0.98").unwrap();
    assert_eq!(f.get_string("rot", ""), "0.25");
    assert_eq!(f.get_string("FDECAY", ""), "0.98");
    let keys: Vec<&str> = f.values().iter().map(|(k, _)| k.as_str()).collect();
    assert_eq!(keys, vec!["fdecay", "rot"]);
}

#[test]
fn lines_without_key_are_ignored() {
    assert!(PresetFile::parse("=1\nnovalue\n").is_none());
    let f = PresetFile::parse("a=1\r\n=2\nb=3").unwrap();
    assert_eq!(f.values().len(), 2);
    assert_eq!(f.get_string("a", ""), "1");
}

#[test]
fn leading_integer_prefix() {
    let f = PresetFile::parse("y=42 comment\nz=  -7x\nw=abc\nbig=99999999999").unwrap();
    assert_eq!(f.get_int("y", 0), 42);
    assert_eq!(f.get_int("z", 0), -7);
    assert_eq!(f.get_int("w", 5), 5);
    assert_eq!(f.get_int("big", 3), 3);
    assert_eq!(parse_leading_int("+12"), Some(12));
    assert_eq!(parse_leading_int("-2147483648"), Some(-2147483648));
    assert_eq!(parse_leading_int("2147483648"), None);
    assert_eq!(parse_leading_int(""), None);
}

#[test]
fn code_block_prefix_is_case_insensitive() {
    let f = PresetFile::parse("Per_Frame_1=x = 1\nper_frame_2=`y = 2").unwrap();
    assert_eq!(f.get_code("PER_FRAME_"), "x = 1\ny = 2\n");
    assert_eq!(f.get_code("per_pixel_"), "");
}

#[test]
fn statements_joined_by_leading_operator() {
    let f = PresetFile::parse("per_frame_1=a = b\nper_frame_2=  * c\nper_frame_3=d = 1   ").unwrap();
    assert_eq!(f.get_code_statements("per_frame_"), "a = b\n  * c;\nd = 1;\n");
}
