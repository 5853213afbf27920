use karukan::engine::{
    sort_paths, threads_label, ConversionSettings, DataPaths, DictionaryInfo, DirEntryInfo, DirListing, InitError,
    InputMethodEngine, LearningSettings, Settings, StrategyMode, USER_DICT_CHECK_INTERVAL,
};
use karukan::learning::LearningCache;

fn load_ok(_: &str, _: u32) -> Result<(), String> {
    Ok(())
}

fn load_fails(variant: &str, _: u32) -> Result<(), String> {
    Err(format!("cannot load {variant}"))
}

fn listing(files: &[(&str, Option<i128>)]) -> DirListing {
    DirListing {
        dir_exists: true,
        files: files
            .iter()
            .map(|(path, mtime)| DirEntryInfo { path: path.to_string(), mtime: *mtime })
            .collect(),
    }
}

#[test]
fn thread_labels() {
    assert_eq!(threads_label(0), "default");
    assert_eq!(threads_label(4), "4");
    assert_eq!(threads_label(12), "12");
}

#[test]
fn kanji_converters_load_once() {
    let mut engine = InputMethodEngine::new();
    assert!(engine.init_kanji_converter_with_model("a", 2, load_fails).is_err());
    assert!(engine.converters.kanji.is_none());
    assert!(engine.init_kanji_converter_with_model("main", 2, load_ok).is_ok());
    let loaded = engine.converters.kanji.as_ref().unwrap();
    assert_eq!((loaded.variant_id.as_str(), loaded.n_threads), ("main", 2));
    assert!(engine.init_kanji_converter("other", load_fails).is_ok());
    assert_eq!(engine.converters.kanji.as_ref().unwrap().variant_id, "main");
    assert!(engine.init_light_kanji_converter("light", 0, load_ok).is_ok());
    assert_eq!(engine.converters.light_kanji.as_ref().unwrap().variant_id, "light");
    let mut fresh = InputMethodEngine::new();
    assert!(fresh.init_kanji_converter("default", load_ok).is_ok());
    assert_eq!(fresh.converters.kanji.as_ref().unwrap().n_threads, 0);
}

#[test]
fn system_dictionary_path_defaults_to_the_data_directory() {
    let mut engine = InputMethodEngine::new();
    engine.init_system_dictionary(None, Some("/data"), |path: &str| {
        Some(DictionaryInfo { paths: vec![path.to_string()] })
    });
    assert_eq!(engine.dicts.system.as_ref().unwrap().paths, vec!["/data/dict.bin"]);
    let mut configured = InputMethodEngine::new();
    configured.init_system_dictionary(Some("/etc/d.bin"), Some("/data/"), |path: &str| {
        Some(DictionaryInfo { paths: vec![path.to_string()] })
    });
    assert_eq!(configured.dicts.system.as_ref().unwrap().paths, vec!["/etc/d.bin"]);
    let mut nowhere = InputMethodEngine::new();
    nowhere.init_system_dictionary(None, None, |_: &str| Some(DictionaryInfo { paths: Vec::new() }));
    assert!(nowhere.dicts.system.is_none());
    let mut missing = InputMethodEngine::new();
    missing.init_system_dictionary(None, Some("/data/"), |_: &str| None);
    assert!(missing.dicts.system.is_none());
}

#[test]
fn learning_cache_initialization() {
    let mut disabled = InputMethodEngine::new();
    disabled.init_learning_cache(false, 10, Some("/l.tsv"), |_: &str, n: usize| Some(LearningCache::new(n)));
    assert!(disabled.learning.is_none());
    let mut unreadable = InputMethodEngine::new();
    unreadable.init_learning_cache(true, 7, Some("/l.tsv"), |_: &str, _: usize| None);
    assert_eq!(unreadable.learning.as_ref().unwrap().entry_count(), 0);
    let mut loaded = InputMethodEngine::new();
    loaded.init_learning_cache(true, 7, Some("/l.tsv"), |_: &str, n: usize| {
        let mut cache = LearningCache::new(n);
        cache.record("あ", "亜");
        Some(cache)
    });
    assert_eq!(loaded.learning.as_ref().unwrap().entry_count(), 1);
    let mut no_file = InputMethodEngine::new();
    no_file.init_learning_cache(true, 7, None, |_: &str, _: usize| None);
    assert_eq!(no_file.learning.as_ref().unwrap().entry_count(), 0);
}

#[test]
fn user_dictionaries_load_sorted_and_rescan_after_the_interval() {
    let mut engine = InputMethodEngine::new();
    let files = [("/u/b.tsv", Some(5)), ("/u/a.tsv", Some(9)), ("/u/c.tsv", None)];
    engine.refresh_user_dictionaries(
        Some("/u"),
        None,
        false,
        100,
        |_: &str| Some(listing(&files)),
        |paths: &Vec<String>| Some(DictionaryInfo { paths: paths.clone() }),
    );
    assert_eq!(engine.dicts.user.as_ref().unwrap().paths, vec!["/u/a.tsv", "/u/b.tsv", "/u/c.tsv"]);
    assert_eq!(engine.dicts.user_dict_max_mtime, Some(9));
    assert_eq!(engine.dicts.user_dict_last_checked, Some(100));

    // Within the interval nothing is scanned.
    engine.refresh_user_dictionaries(
        Some("/u"),
        None,
        false,
        100 + USER_DICT_CHECK_INTERVAL - 1,
        |_: &str| Some(listing(&[])),
        |_: &Vec<String>| None,
    );
    assert!(engine.dicts.user.is_some());
    assert_eq!(engine.dicts.user_dict_last_checked, Some(100));

    // Unchanged files are not reloaded.
    let later = 100 + USER_DICT_CHECK_INTERVAL;
    engine.refresh_user_dictionaries(
        Some("/u"),
        None,
        false,
        later,
        |_: &str| Some(listing(&files)),
        |_: &Vec<String>| None,
    );
    assert!(engine.dicts.user.is_some());
    assert_eq!(engine.dicts.user_dict_last_checked, Some(later));

    // A forced scan of an empty directory drops the dictionaries.
    engine.refresh_user_dictionaries(Some("/u"), None, true, later, |_: &str| Some(listing(&[])), |_: &Vec<String>| None);
    assert!(engine.dicts.user.is_none());
    assert!(engine.dicts.user_dict_max_mtime.is_none());

    let mut nothing = InputMethodEngine::new();
    nothing.init_user_dictionaries(None, 0, |_: &str| Some(listing(&files)), |_: &Vec<String>| None);
    assert!(nothing.dicts.user_dict_last_checked.is_none());
}

#[test]
fn paths_sort_in_character_order() {
    let sorted = sort_paths(vec!["b".to_string(), "a".to_string(), "ab".to_string(), "あ".to_string()]);
    assert_eq!(sorted, vec!["a", "ab", "b", "あ"]);
}

fn settings(strategy: StrategyMode, model: Option<&str>, light_model: Option<&str>) -> Settings {
    Settings {
        conversion: ConversionSettings {
            strategy,
            model: model.map(str::to_string),
            light_model: light_model.map(str::to_string),
            dict_path: None,
            n_threads: 3,
        },
        learning: LearningSettings { enabled: true, max_entries: 50 },
    }
}

fn resolve(setting: &Option<String>) -> Result<String, String> {
    match setting.as_deref() {
        None => Ok("default".to_string()),
        Some(name) if name.starts_with("bad") => Err(format!("unknown model {name}")),
        Some(name) => Ok(name.to_string()),
    }
}

fn init(
    engine: &mut InputMethodEngine,
    settings: &Settings,
    create: fn(&str, u32) -> Result<(), String>,
) -> Result<(), InitError<String>> {
    let paths = DataPaths { data_dir: Some("/data".to_string()), user_dict_dir: None, learning_file: None };
    engine.init_from_settings(
        settings,
        &paths,
        "default",
        0,
        resolve,
        create,
        |path: &str| Some(DictionaryInfo { paths: vec![path.to_string()] }),
        |_: &str| None,
        |_: &Vec<String>| None,
        |_: &str, _: usize| None,
    )
}

#[test]
fn init_from_settings_follows_the_strategy() {
    let mut adaptive = InputMethodEngine::new();
    assert!(init(&mut adaptive, &settings(StrategyMode::Adaptive, Some("main"), Some("bad")), load_ok).is_ok());
    assert_eq!(adaptive.converters.kanji.as_ref().unwrap().variant_id, "main");
    assert_eq!(adaptive.converters.light_kanji.as_ref().unwrap().variant_id, "default");
    assert_eq!(adaptive.converters.kanji.as_ref().unwrap().n_threads, 3);
    assert_eq!(adaptive.dicts.system.as_ref().unwrap().paths, vec!["/data/dict.bin"]);
    assert!(adaptive.learning.is_some());

    let mut light = InputMethodEngine::new();
    assert!(init(&mut light, &settings(StrategyMode::Light, Some("main"), Some("small")), load_ok).is_ok());
    assert_eq!(light.converters.kanji.as_ref().unwrap().variant_id, "small");
    assert!(light.converters.light_kanji.is_none());

    let mut main = InputMethodEngine::new();
    assert!(init(&mut main, &settings(StrategyMode::Main, None, None), load_ok).is_ok());
    assert_eq!(main.converters.kanji.as_ref().unwrap().variant_id, "default");
    assert!(main.converters.light_kanji.is_none());
}

#[test]
fn init_from_settings_reports_what_failed() {
    let mut engine = InputMethodEngine::new();
    let error = init(&mut engine, &settings(StrategyMode::Light, None, Some("bad")), load_ok).unwrap_err();
    assert!(matches!(error, InitError::InvalidLightModel(_)));
    assert_eq!(error.context(), "invalid light_model settings");
    let error = init(&mut engine, &settings(StrategyMode::Main, Some("bad"), None), load_ok).unwrap_err();
    assert!(matches!(error, InitError::InvalidModel(_)));
    assert_eq!(error.context(), "invalid model settings");
    let error = init(&mut engine, &settings(StrategyMode::Main, None, None), load_fails).unwrap_err();
    assert!(matches!(error, InitError::MainModelFailed(ref e) if e == "cannot load default"));
    assert_eq!(error.context(), "failed to initialize main model");
    let error = init(&mut engine, &settings(StrategyMode::Light, None, None), load_fails).unwrap_err();
    assert_eq!(error.context(), "failed to initialize light model");
    let error = init(&mut engine, &settings(StrategyMode::Adaptive, None, None), load_fails).unwrap_err();
    assert_eq!(error.context(), "failed to initialize default model");
    assert!(engine.converters.kanji.is_none());
    assert!(engine.converters.light_kanji.is_none());
}
