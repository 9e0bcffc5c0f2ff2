use sdl_demo::store::ScoreStore;

#[test]
fn load_without_file_is_no_record() {
    let store = ScoreStore::new();
    assert!(store.load_highscores_and_lines().is_none());
}

#[test]
fn load_from_absent_content_is_no_record() {
    let store = ScoreStore::from_content(None);
    assert!(store.load_highscores_and_lines().is_none());
}

#[test]
fn load_two_line_file() {
    let store = ScoreStore::from_content(Some(String::from("10 20\n1 2 3\n")));
    let (highscores, lines) = store.load_highscores_and_lines().unwrap();
    assert_eq!(highscores, vec![10, 20]);
    assert_eq!(lines, vec![1, 2, 3]);
}

#[test]
fn load_single_line_is_no_record() {
    let store = ScoreStore::from_content(Some(String::from("10 20")));
    assert!(store.load_highscores_and_lines().is_none());
}

#[test]
fn load_empty_file_is_no_record() {
    let store = ScoreStore::from_content(Some(String::new()));
    assert!(store.load_highscores_and_lines().is_none());
}

#[test]
fn load_drops_malformed_tokens_per_line() {
    let store = ScoreStore::from_content(Some(String::from("1 x 3\n4 -5\n")));
    let (highscores, lines) = store.load_highscores_and_lines().unwrap();
    assert_eq!(highscores, vec![1, 3]);
    assert_eq!(lines, vec![4]);
}

#[test]
fn save_then_load_yields_record() {
    let mut store = ScoreStore::new();
    assert!(store.save_highscores_and_lines(&[5], &[1]));
    let (highscores, lines) = store.load_highscores_and_lines().unwrap();
    assert_eq!(highscores, vec![5]);
    assert_eq!(lines, vec![1]);
}

#[test]
fn save_overwrites_prior_record() {
    let mut store = ScoreStore::from_content(Some(String::from("9 9\n9\n")));
    assert!(store.save_highscores_and_lines(&[10, 20], &[1, 2, 3]));
    let (highscores, lines) = store.load_highscores_and_lines().unwrap();
    assert_eq!(highscores, vec![10, 20]);
    assert_eq!(lines, vec![1, 2, 3]);
}

#[test]
fn saved_text_is_two_newline_terminated_lines() {
    let mut store = ScoreStore::new();
    store.save_highscores_and_lines(&[10, 20], &[1, 2, 3]);
    assert_eq!(store.text().unwrap().as_str(), "10 20\n1 2 3\n");
}

#[test]
fn empty_record_saves_and_loads() {
    let mut store = ScoreStore::new();
    let empty: [u32; 0] = [];
    assert!(store.save_highscores_and_lines(&empty, &empty));
    let (highscores, lines) = store.load_highscores_and_lines().unwrap();
    assert!(highscores.is_empty());
    assert!(lines.is_empty());
}
