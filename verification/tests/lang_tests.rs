use remote_mic::lang::{available_langs, init_lang, lang_display, reload_lang, tr, Localizer};

fn table() -> Vec<(String, String)> {
    vec![
        (
            "zh".to_string(),
            "{\"this.lang\": \"中文\", \"app.title\": \"远程麦克风\"}".to_string(),
        ),
        ("en".to_string(), "{\"this.lang\": \"English\"}".to_string()),
        ("xx".to_string(), "not json".to_string()),
    ]
}

#[test]
fn unmapped_key_is_returned_as_is() {
    let mut service = Localizer::new(table());
    assert_eq!(tr(&service, "no.such.key"), "no.such.key");
    init_lang(&mut service, "zh");
    assert_eq!(tr(&service, "no.such.key"), "no.such.key");
    assert_eq!(tr(&service, "app.title"), "远程麦克风");
}

#[test]
fn reload_to_language_without_key_falls_back() {
    let mut service = Localizer::new(table());
    init_lang(&mut service, "zh");
    reload_lang(&mut service, "en");
    assert_eq!(tr(&service, "app.title"), "app.title");
    assert_eq!(tr(&service, "this.lang"), "English");
}

#[test]
fn init_happens_once_and_reload_needs_init() {
    let mut service = Localizer::new(table());
    reload_lang(&mut service, "zh");
    assert!(!service.is_initialized());
    init_lang(&mut service, "en");
    init_lang(&mut service, "zh");
    assert_eq!(tr(&service, "this.lang"), "English");
    reload_lang(&mut service, "nope");
    assert_eq!(tr(&service, "this.lang"), "English");
    reload_lang(&mut service, "xx");
    assert_eq!(tr(&service, "this.lang"), "English");
}

#[test]
fn codes_and_display_names() {
    let service = Localizer::new(table());
    assert_eq!(available_langs(&service), vec!["zh", "en", "xx"]);
    assert_eq!(lang_display(&service, "zh"), "中文");
    assert_eq!(lang_display(&service, "xx"), "xx");
    assert_eq!(lang_display(&service, "de"), "de");
}
