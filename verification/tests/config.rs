use musicplayer_continue::config::{rect_from, tracks_from, ConfigError, Rect, Settings};

const SAMPLE: &str = "{\n  \"version\": 100,\n  \"show_warning\": true,\n  \"mode\": \"random\",\n  \"font\": \"Minecraft AE.ttf\",\n  \"icon\": \"music_disc_13.png\",\n  \"background_info\": {\n    \"image\": \"toasts.png\",\n    \"rect\": [ 0, 0, 480, 96 ],\n    \"scale\": [ 3.0, 3.0 ]\n  },\n  \"background_warn\": {\n    \"image\": \"toasts.png\",\n    \"rect\": [ 0, 192, 280, 96 ],\n    \"scale\": [ 3.0, 3.0 ]\n  },\n  \"music\": []\n}\n";

fn document(music: &str, font: &str, rect: &str, image: &str) -> String {
    format!(
        "{{\"music\": {}, \"font\": {}, \"background_info\": {{\"rect\": {}, \"image\": {}}}}}",
        music, font, rect, image
    )
}

fn error_of(text: &str) -> Option<ConfigError> {
    Settings::from_json(text).err()
}

const TWO_TRACKS: &str =
    "[{\"file\": \"cat.ogg\", \"name\": \"Cat\"}, {\"name\": \"Ward\", \"file\": \"ward.ogg\"}]";

#[test]
fn sample_document_is_read() {
    let s = Settings::from_json(SAMPLE).ok().unwrap();
    assert!(s.music.is_empty());
    assert_eq!(s.font, "Minecraft AE.ttf");
    assert_eq!(s.image, "toasts.png");
    assert_eq!(s.rect, Rect { left: 0, top: 0, width: 480, height: 96 });
}

#[test]
fn tracks_are_read_in_order() {
    let text = document(TWO_TRACKS, "\"f.ttf\"", "[1, 2, 3, 4]", "\"i.png\"");
    let s = Settings::from_json(&text).ok().unwrap();
    assert_eq!(s.music.len(), 2);
    assert_eq!(s.music[0].file, "cat.ogg");
    assert_eq!(s.music[0].name, "Cat");
    assert_eq!(s.music[1].file, "ward.ogg");
    assert_eq!(s.music[1].name, "Ward");
    assert_eq!(s.font, "f.ttf");
    assert_eq!(s.image, "i.png");
    assert_eq!(s.rect, Rect { left: 1, top: 2, width: 3, height: 4 });
}

#[test]
fn parsed_document_is_read() {
    let text = document(TWO_TRACKS, "\"f.ttf\"", "[1, 2, 3, 4]", "\"i.png\"");
    let doc: serde_json::Value = serde_json::from_str(&text).unwrap();
    let s = Settings::from_value(&doc).ok().unwrap();
    assert_eq!(s.music.len(), 2);
    assert_eq!(s.music[1].name, "Ward");
    assert_eq!(s.rect, Rect { left: 1, top: 2, width: 3, height: 4 });
    let not_an_object: serde_json::Value = serde_json::from_str("[1, 2]").unwrap();
    assert_eq!(Settings::from_value(&not_an_object).err(), Some(ConfigError::Music));
}

#[test]
fn text_that_is_no_json() {
    assert_eq!(error_of(""), Some(ConfigError::Syntax));
    assert_eq!(error_of("{"), Some(ConfigError::Syntax));
    assert_eq!(error_of("{\"music\": [],}"), Some(ConfigError::Syntax));
    assert_eq!(error_of("music"), Some(ConfigError::Syntax));
}

#[test]
fn music_that_is_no_array() {
    assert_eq!(error_of("{}"), Some(ConfigError::Music));
    assert_eq!(error_of("null"), Some(ConfigError::Music));
    assert_eq!(error_of("[]"), Some(ConfigError::Music));
    let text = document("{\"file\": \"a\", \"name\": \"b\"}", "\"f\"", "[1, 2, 3, 4]", "\"i\"");
    assert_eq!(error_of(&text), Some(ConfigError::Music));
    let text = document("\"cat.ogg\"", "\"f\"", "[1, 2, 3, 4]", "\"i\"");
    assert_eq!(error_of(&text), Some(ConfigError::Music));
}

#[test]
fn track_without_its_texts() {
    let cases = [
        ("[{\"name\": \"Cat\"}]", 0),
        ("[{\"file\": \"cat.ogg\"}]", 0),
        ("[{\"file\": \"cat.ogg\", \"name\": 13}]", 0),
        ("[{\"file\": null, \"name\": \"Cat\"}]", 0),
        ("[\"cat.ogg\"]", 0),
        ("[{\"file\": \"a\", \"name\": \"b\"}, {\"file\": \"c\"}]", 1),
        ("[{\"file\": \"a\", \"name\": \"b\"}, {\"file\": \"c\", \"name\": \"d\"}, 7, {}]", 2),
    ];
    for (music, index) in cases {
        let text = document(music, "\"f\"", "[1, 2, 3, 4]", "\"i\"");
        assert_eq!(error_of(&text), Some(ConfigError::Track(index)), "{}", music);
    }
}

#[test]
fn font_that_is_no_string() {
    assert_eq!(error_of("{\"music\": []}"), Some(ConfigError::Font));
    let text = document("[]", "12", "[1, 2, 3, 4]", "\"i\"");
    assert_eq!(error_of(&text), Some(ConfigError::Font));
    let text = document("[]", "[\"f.ttf\"]", "[1, 2, 3, 4]", "\"i\"");
    assert_eq!(error_of(&text), Some(ConfigError::Font));
}

#[test]
fn rect_that_is_no_four_integers() {
    assert_eq!(error_of("{\"music\": [], \"font\": \"f\"}"), Some(ConfigError::Rect));
    assert_eq!(
        error_of("{\"music\": [], \"font\": \"f\", \"background_info\": [1, 2, 3, 4]}"),
        Some(ConfigError::Rect)
    );
    for rect in [
        "[]",
        "[1, 2, 3]",
        "[1, 2, 3, 4.0]",
        "[1, 2.5, 3, 4]",
        "[\"1\", 2, 3, 4]",
        "[1, 2, 3, null]",
        "[1, 2, 3, 9223372036854775808]",
        "{\"0\": 1, \"1\": 2, \"2\": 3, \"3\": 4}",
        "\"0 0 480 96\"",
        "7",
    ] {
        let text = document("[]", "\"f\"", rect, "\"i\"");
        assert_eq!(error_of(&text), Some(ConfigError::Rect), "{}", rect);
    }
}

#[test]
fn rect_takes_the_first_four_numbers() {
    let text = document("[]", "\"f\"", "[5, 6, 7, 8, 9, \"x\"]", "\"i\"");
    let s = Settings::from_json(&text).ok().unwrap();
    assert_eq!(s.rect, Rect { left: 5, top: 6, width: 7, height: 8 });
}

#[test]
fn rect_numbers_are_cut_to_32_bits() {
    let text = document(
        "[]",
        "\"f\"",
        "[4294967297, -1, 2147483648, 9223372036854775807]",
        "\"i\"",
    );
    let s = Settings::from_json(&text).ok().unwrap();
    assert_eq!(s.rect, Rect { left: 1, top: -1, width: -2147483648, height: -1 });
    let text = document("[]", "\"f\"", "[-9223372036854775808, -2147483649, 0, 65536]", "\"i\"");
    let s = Settings::from_json(&text).ok().unwrap();
    assert_eq!(s.rect, Rect { left: 0, top: 2147483647, width: 0, height: 65536 });
}

#[test]
fn image_that_is_no_string() {
    assert_eq!(
        error_of("{\"music\": [], \"font\": \"f\", \"background_info\": {\"rect\": [1, 2, 3, 4]}}"),
        Some(ConfigError::Image)
    );
    let text = document("[]", "\"f\"", "[1, 2, 3, 4]", "false");
    assert_eq!(error_of(&text), Some(ConfigError::Image));
}

#[test]
fn first_wrong_part_is_reported() {
    let text = document("3", "3", "3", "3");
    assert_eq!(error_of(&text), Some(ConfigError::Music));
    let text = document("[3]", "3", "3", "3");
    assert_eq!(error_of(&text), Some(ConfigError::Track(0)));
    let text = document("[]", "3", "3", "3");
    assert_eq!(error_of(&text), Some(ConfigError::Font));
    let text = document("[]", "\"f\"", "3", "3");
    assert_eq!(error_of(&text), Some(ConfigError::Rect));
    let text = document("[]", "\"f\"", "[1, 2, 3, 4]", "3");
    assert_eq!(error_of(&text), Some(ConfigError::Image));
}

#[test]
fn tracks_from_a_list_of_documents() {
    let list: Vec<serde_json::Value> = serde_json::from_str(TWO_TRACKS).unwrap();
    let tracks = tracks_from(&list).ok().unwrap();
    assert_eq!(tracks.len(), 2);
    assert_eq!(tracks[0].name, "Cat");
    assert_eq!(tracks[1].file, "ward.ogg");
    assert!(tracks_from(&Vec::new()).ok().unwrap().is_empty());
    let list: Vec<serde_json::Value> =
        serde_json::from_str("[{\"file\": \"a\", \"name\": \"b\"}, {}, {}]").unwrap();
    assert_eq!(tracks_from(&list).err(), Some(ConfigError::Track(1)));
}

#[test]
fn rect_from_a_document() {
    let doc: serde_json::Value = serde_json::from_str("[0, 192, 280, 96]").unwrap();
    assert_eq!(rect_from(&doc), Some(Rect { left: 0, top: 192, width: 280, height: 96 }));
    let doc: serde_json::Value = serde_json::from_str("[0, 192, 280]").unwrap();
    assert_eq!(rect_from(&doc), None);
    let doc: serde_json::Value = serde_json::from_str("{\"rect\": [0, 192, 280, 96]}").unwrap();
    assert_eq!(rect_from(&doc), None);
}

#[test]
fn later_member_of_the_same_key_counts() {
    let text = "{\"music\": 1, \"music\": [], \"font\": \"a\", \"font\": \"b\", \"background_info\": {\"rect\": [1, 2, 3, 4], \"image\": \"i\"}}";
    let s = Settings::from_json(text).ok().unwrap();
    assert_eq!(s.font, "b");
}
