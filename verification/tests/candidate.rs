use karukan::candidate::{Candidate, CandidateList};

fn strings(items: &[&str]) -> Vec<String> {
    items.iter().map(|s| s.to_string()).collect()
}

#[test]
fn test_candidate_list_basic() {
    let candidates = CandidateList::from_strings(strings(&["今日", "京", "恭"]));
    assert_eq!(candidates.len(), 3);
    assert_eq!(candidates.selected_text(), Some("今日"));
}

#[test]
fn test_candidate_list_unselected() {
    let mut candidates = CandidateList::new_unselected(vec![Candidate::new("今日")]);
    assert_eq!(candidates.cursor(), None);
    assert_eq!(candidates.page_cursor(), None);
    assert_eq!(candidates.selected_text(), None);

    assert!(candidates.move_next());
    assert_eq!(candidates.cursor(), Some(0));
    assert_eq!(candidates.selected_text(), Some("今日"));
}

#[test]
fn test_candidate_list_navigation() {
    let mut candidates = CandidateList::from_strings(strings(&["a", "b", "c"]));

    assert!(candidates.move_next());
    assert_eq!(candidates.selected_text(), Some("b"));

    assert!(candidates.move_next());
    assert_eq!(candidates.selected_text(), Some("c"));

    // Wrap around
    assert!(candidates.move_next());
    assert_eq!(candidates.selected_text(), Some("a"));

    // Wrap back
    assert!(candidates.move_prev());
    assert_eq!(candidates.selected_text(), Some("c"));
}

#[test]
fn test_candidate_list_pagination() {
    // Default page_size is 9, so 20 items = 3 pages (9+9+2)
    let items: Vec<_> = (1..=20).map(|i| format!("item{}", i)).collect();
    let mut candidates = CandidateList::from_strings(items);

    assert_eq!(candidates.total_pages(), 3);
    assert_eq!(candidates.current_page(), 0);
    assert_eq!(candidates.page_candidates().len(), 9);

    candidates.next_page();
    assert_eq!(candidates.current_page(), 1);
    assert_eq!(candidates.page_start(), 9);

    candidates.next_page();
    assert_eq!(candidates.current_page(), 2);
    assert_eq!(candidates.page_candidates().len(), 2);

    // Wrap to first page
    candidates.next_page();
    assert_eq!(candidates.current_page(), 0);
}

#[test]
fn test_candidate_list_select_on_page() {
    let items: Vec<_> = (1..=20).map(|i| format!("item{}", i)).collect();
    let mut candidates = CandidateList::from_strings(items);

    // Select item 3 on first page
    candidates.select_on_page(3);
    assert_eq!(candidates.selected_text(), Some("item3"));

    // Move to second page and select item 2
    candidates.next_page();
    candidates.select_on_page(2);
    assert_eq!(candidates.selected_text(), Some("item11")); // 9 + 2 = 11
}

#[test]
fn candidate_constructors_fill_text_and_reading() {
    let plain = Candidate::new("愛");
    assert_eq!(plain.text, "愛");
    assert_eq!(plain.reading, None);
    let with_reading = Candidate::with_reading("愛", "あい");
    assert_eq!(with_reading.text, "愛");
    assert_eq!(with_reading.reading.as_deref(), Some("あい"));
    assert_eq!(with_reading.source_label, None);
    assert_eq!(with_reading.description, None);
}

#[test]
fn from_strings_with_reading_attaches_reading_to_every_candidate() {
    let list = CandidateList::from_strings_with_reading(strings(&["藍", "愛"]), "あい");
    assert_eq!(list.len(), 2);
    for candidate in list.candidates() {
        assert_eq!(candidate.reading.as_deref(), Some("あい"));
    }
    assert_eq!(list.candidates()[1].text, "愛");
    assert_eq!(list.cursor(), Some(0));
}

#[test]
fn empty_list_moves_nowhere() {
    let mut list = CandidateList::new(Vec::new());
    assert!(list.is_empty());
    assert_eq!(list.total_pages(), 0);
    assert!(!list.move_next());
    assert!(!list.move_prev());
    assert!(!list.next_page());
    assert!(!list.prev_page());
    assert_eq!(list.selected_text(), None);
    assert_eq!(list.page_candidates().len(), 0);
    let mut unselected = CandidateList::new_unselected(Vec::new());
    assert!(!unselected.move_next());
    assert!(!unselected.move_prev());
    assert_eq!(unselected.cursor(), None);
}

#[test]
fn move_prev_from_unselected_goes_to_last() {
    let mut list = CandidateList::new_unselected(vec![Candidate::new("a"), Candidate::new("b")]);
    assert!(list.move_prev());
    assert_eq!(list.cursor(), Some(1));
    assert!(list.move_next());
    assert_eq!(list.cursor(), Some(0));
    assert!(list.move_prev());
    assert_eq!(list.cursor(), Some(1));
}

#[test]
fn prev_page_wraps_to_last_page() {
    let items: Vec<_> = (1..=20).map(|i| format!("item{}", i)).collect();
    let mut list = CandidateList::from_strings(items);
    assert!(list.prev_page());
    assert_eq!(list.current_page(), 2);
    assert_eq!(list.cursor(), Some(18));
    assert_eq!(list.page_cursor(), Some(0));
    assert!(list.prev_page());
    assert_eq!(list.cursor(), Some(9));
    assert!(list.prev_page());
    assert_eq!(list.cursor(), Some(0));
}

#[test]
fn select_rejects_rows_out_of_range() {
    let items: Vec<_> = (1..=11).map(|i| format!("item{}", i)).collect();
    let mut list = CandidateList::from_strings(items);
    assert!(list.select_on_page(0).is_none());
    assert!(list.select_on_page(10).is_none());
    list.next_page();
    assert_eq!(list.page_start(), 9);
    assert!(list.select_on_page(3).is_none());
    assert_eq!(list.cursor(), Some(9));
    assert_eq!(list.select_on_page(2).map(|c| c.text.clone()), Some("item11".to_string()));
    assert!(list.select(11).is_none());
    assert_eq!(list.select(4).map(|c| c.text.clone()), Some("item5".to_string()));
    assert_eq!(list.page_cursor(), Some(4));
}

#[test]
fn reset_clear_and_update_set_the_cursor() {
    let mut list = CandidateList::from_strings(strings(&["a", "b", "c"]));
    list.select(2);
    list.clear_selection();
    assert_eq!(list.cursor(), None);
    assert_eq!(list.len(), 3);
    list.reset();
    assert_eq!(list.cursor(), Some(0));
    list.select(2);
    list.update(vec![Candidate::new("x")]);
    assert_eq!(list.cursor(), Some(0));
    assert_eq!(list.selected_text(), Some("x"));
    assert_eq!(list.page_size(), CandidateList::DEFAULT_PAGE_SIZE);
    let default = CandidateList::default();
    assert!(default.is_empty());
    assert_eq!(default.cursor(), Some(0));
    let copy = list.clone();
    assert_eq!(copy.selected_text(), Some("x"));
}

#[test]
fn move_prev_undoes_move_next_on_every_row() {
    let mut list = CandidateList::from_strings(strings(&["a", "b", "c", "d"]));
    for row in 0..4 {
        list.select(row);
        assert!(list.move_next());
        assert!(list.move_prev());
        assert_eq!(list.cursor(), Some(row));
        assert!(list.move_prev());
        assert!(list.move_next());
        assert_eq!(list.cursor(), Some(row));
    }
}

#[test]
fn page_moves_land_on_page_starts_and_undo_each_other() {
    let items: Vec<_> = (1..=20).map(|i| format!("item{}", i)).collect();
    let mut list = CandidateList::from_strings(items);
    for row in [0usize, 4, 9, 13, 18, 19] {
        list.select(row);
        let start = list.page_start();
        assert!(list.next_page());
        assert_eq!(list.cursor().unwrap() % 9, 0);
        assert!(list.prev_page());
        assert_eq!(list.cursor(), Some(start));
        list.select(row);
        assert!(list.prev_page());
        assert_eq!(list.cursor().unwrap() % 9, 0);
        assert!(list.selected().is_some());
        assert!(list.next_page());
        assert_eq!(list.cursor(), Some(start));
    }
}

#[test]
fn page_moves_from_an_unselected_list_return_to_the_first_page() {
    let items: Vec<_> = (1..=20).map(|i| format!("item{}", i)).collect();
    let mut list = CandidateList::new_unselected(items.into_iter().map(|s| Candidate::new(&s)).collect());
    assert!(list.next_page());
    assert!(list.prev_page());
    assert_eq!(list.cursor(), Some(0));
    list.clear_selection();
    assert!(list.prev_page());
    assert_eq!(list.cursor(), Some(18));
    assert!(list.next_page());
    assert_eq!(list.cursor(), Some(0));
}

#[test]
fn candidates_convert_from_text() {
    let from_str = Candidate::from("愛");
    assert_eq!(from_str, Candidate::new("愛"));
    let from_string = Candidate::from("藍".to_string());
    assert_eq!(from_string.text, "藍");
    assert_eq!(from_string.reading, None);
    assert_eq!(from_string.source_label, None);
    assert_eq!(from_string.description, None);
}
