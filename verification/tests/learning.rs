//! Space/Down: include learning candidates (default conversion).
//! Tab: skip learning candidates (lets users escape stale learned entries).

use karukan::engine::InputMethodEngine;
use karukan::learning::{LearningAdjustment, LearningCache};

/// Engine seeded with a learning entry `reading → surface`, no kanji model.
fn engine_with_learned(reading: &str, surface: &str) -> InputMethodEngine {
    let mut engine = InputMethodEngine::new();
    engine.converters.kanji = None;
    let mut cache = LearningCache::new(100);
    cache.record(reading, surface);
    engine.learning = Some(cache);
    engine
}

#[test]
fn build_candidates_includes_learning_when_not_skipped() {
    let engine = engine_with_learned("あい", "藍");

    let texts: Vec<String> = engine
        .build_conversion_candidates("あい", 9, false)
        .into_iter()
        .map(|c| c.text)
        .collect();

    assert!(
        texts.contains(&"藍".to_string()),
        "Space path (skip_learning=false) should surface learned `藍`, got {:?}",
        texts,
    );
}

#[test]
fn build_candidates_omits_learning_when_skipped() {
    let engine = engine_with_learned("あい", "藍");

    let texts: Vec<String> = engine
        .build_conversion_candidates("あい", 9, true)
        .into_iter()
        .map(|c| c.text)
        .collect();

    assert!(
        !texts.contains(&"藍".to_string()),
        "Tab path (skip_learning=true) must drop learned `藍`, got {:?}",
        texts,
    );
}

#[test]
fn adjust_learning_delete_removes_candidate() {
    let mut engine = engine_with_learned("あい", "藍");

    let result = engine.adjust_learning_candidate("あい", "藍", LearningAdjustment::Delete);
    assert!(result.consumed);

    let texts: Vec<String> = engine
        .lookup_learning_candidates("あい")
        .into_iter()
        .map(|c| c.text)
        .collect();
    assert!(
        !texts.contains(&"藍".to_string()),
        "Delete must remove learned `藍`, got {:?}",
        texts,
    );
}

#[test]
fn adjust_learning_promote_moves_candidate_to_top() {
    let mut engine = engine_with_learned("あい", "藍");
    engine.record_learning("あい", "愛");
    engine.record_learning("あい", "愛");

    let before: Vec<String> = engine
        .lookup_learning_candidates("あい")
        .into_iter()
        .map(|c| c.text)
        .collect();
    assert_eq!(before[0], "愛");

    let result = engine.adjust_learning_candidate("あい", "藍", LearningAdjustment::Promote);
    assert!(result.consumed);

    let after: Vec<String> = engine
        .lookup_learning_candidates("あい")
        .into_iter()
        .map(|c| c.text)
        .collect();
    assert_eq!(after[0], "藍");
}

#[test]
fn adjust_learning_demote_lowers_candidate_score() {
    let mut engine = engine_with_learned("あい", "藍");
    engine.record_learning("あい", "藍");

    let before = engine.learning.as_ref().unwrap().lookup("あい")[0].1;
    let result = engine.adjust_learning_candidate("あい", "藍", LearningAdjustment::Demote);
    assert!(result.consumed);
    let after = engine.learning.as_ref().unwrap().lookup("あい")[0].1;

    assert!(after < before);
}

#[test]
fn learning_cache_evicts_oldest_when_full() {
    let mut cache = LearningCache::new(2);
    cache.record("あ", "亜");
    cache.record("い", "井");
    cache.record("う", "宇");
    assert_eq!(cache.entry_count(), 2);
    assert!(cache.lookup("あ").is_empty());
    assert_eq!(cache.lookup("う"), vec![("宇".to_string(), 1)]);
}

#[test]
fn conversion_candidates_end_with_the_reading_and_respect_the_limit() {
    let engine = engine_with_learned("あい", "藍");
    let texts: Vec<String> = engine
        .build_conversion_candidates("あい", 9, false)
        .into_iter()
        .map(|c| c.text)
        .collect();
    assert_eq!(texts, vec!["藍", "あい"]);
    assert_eq!(engine.build_conversion_candidates("あい", 1, false).len(), 1);
    let learned = engine.lookup_learning_candidates("あい");
    assert_eq!(learned[0].reading.as_deref(), Some("あい"));
    assert_eq!(learned[0].source_label.as_deref(), Some("📝 学習"));
    let mut unknown = engine_with_learned("あい", "藍");
    assert!(!unknown.adjust_learning_candidate("あい", "愛", LearningAdjustment::Delete).consumed);
}

#[test]
fn recorded_conversion_is_learned_and_scores_grow() {
    let mut cache = LearningCache::new(10);
    cache.record("か", "火");
    cache.record("か", "火");
    cache.record("か", "蚊");
    assert_eq!(cache.lookup("か"), vec![("火".to_string(), 2), ("蚊".to_string(), 1)]);
    assert_eq!(cache.entry_count(), 2);
    assert!(cache.lookup("き").is_empty());
}

#[test]
fn promote_delete_and_demote_on_the_cache() {
    let mut cache = LearningCache::new(10);
    cache.record("か", "火");
    cache.record("か", "火");
    cache.record("か", "火");
    cache.record("か", "蚊");
    assert!(cache.adjust("か", "蚊", LearningAdjustment::Promote));
    assert_eq!(cache.lookup("か")[0], ("蚊".to_string(), 4));
    assert!(cache.adjust("か", "蚊", LearningAdjustment::Demote));
    // Equal scores keep the order in which the conversions were learned.
    assert_eq!(cache.lookup("か"), vec![("火".to_string(), 3), ("蚊".to_string(), 3)]);
    assert!(cache.adjust("か", "火", LearningAdjustment::Delete));
    assert_eq!(cache.lookup("か"), vec![("蚊".to_string(), 3)]);
    assert!(!cache.adjust("か", "火", LearningAdjustment::Delete));
    assert!(!cache.adjust("き", "木", LearningAdjustment::Promote));
    let mut low = LearningCache::new(10);
    low.record("く", "九");
    assert!(low.adjust("く", "九", LearningAdjustment::Demote));
    assert!(low.adjust("く", "九", LearningAdjustment::Demote));
    assert_eq!(low.lookup("く"), vec![("九".to_string(), 0)]);
}

#[test]
fn skipped_learning_offers_only_the_reading() {
    let engine = engine_with_learned("あい", "藍");
    let texts: Vec<String> = engine
        .build_conversion_candidates("あい", 9, true)
        .into_iter()
        .map(|c| c.text)
        .collect();
    assert_eq!(texts, vec!["あい"]);
    let without_cache = InputMethodEngine::new();
    assert!(without_cache.lookup_learning_candidates("あい").is_empty());
    assert_eq!(without_cache.build_conversion_candidates("あい", 9, false).len(), 1);
    assert_eq!(without_cache.build_conversion_candidates("あい", 0, false).len(), 0);
}
