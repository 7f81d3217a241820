use room_relay::word_chooser::{draw_candidates, generate_room_name, split_lines, WordList};

fn strings(words: &[&str]) -> Vec<String> {
    words.iter().map(|w| w.to_string()).collect()
}

#[test]
fn split_lines_cuts_at_every_newline() {
    assert_eq!(split_lines("a\nbc\n\nd"), strings(&["a", "bc", "", "d"]));
    assert_eq!(split_lines(""), strings(&[""]));
    assert_eq!(split_lines("\n"), strings(&["", ""]));
    assert_eq!(split_lines("one"), strings(&["one"]));
    assert_eq!(split_lines("ends\n"), strings(&["ends", ""]));
    assert_eq!(split_lines("\u{e9}t\u{e9}\nna\u{ef}ve"), strings(&["\u{e9}t\u{e9}", "na\u{ef}ve"]));
}

#[test]
fn word_list_drops_empty_words() {
    let list = WordList::new(strings(&["", "red", "", "blue"])).unwrap();
    assert_eq!(list.len(), 2);
    assert!(WordList::new(strings(&["", ""])).is_none());
    assert!(WordList::new(Vec::new()).is_none());
}

#[test]
fn word_list_from_text_takes_the_non_empty_lines() {
    let list = WordList::from_text("red\n\nblue\ngreen\n").unwrap();
    assert_eq!(list.len(), 3);
    assert!(WordList::from_text("").is_none());
    assert!(WordList::from_text("\n\n").is_none());
}

#[test]
fn generated_names_come_from_the_list() {
    let words = ["red", "blue", "green"];
    let list = WordList::new(strings(&words)).unwrap();
    for _ in 0..200 {
        let name = generate_room_name(&list);
        assert!(!name.is_empty());
        assert!(words.contains(&name.as_str()));
    }
}

#[test]
fn a_single_word_is_always_chosen() {
    let list = WordList::from_text("only").unwrap();
    for _ in 0..20 {
        assert_eq!(generate_room_name(&list), "only");
    }
}

#[test]
fn every_word_is_chosen_sooner_or_later() {
    let list = WordList::from_text("a\nb").unwrap();
    let mut seen_a = false;
    let mut seen_b = false;
    for _ in 0..400 {
        match generate_room_name(&list).as_str() {
            "a" => seen_a = true,
            "b" => seen_b = true,
            other => panic!("{} is not in the list", other),
        }
    }
    assert!(seen_a && seen_b);
}

#[test]
fn candidates_are_drawn_from_the_list() {
    let words = ["red", "blue", "green"];
    let list = WordList::new(strings(&words)).unwrap();
    let candidates = draw_candidates(&list, 11);
    assert_eq!(candidates.len(), 11);
    for candidate in &candidates {
        assert!(words.contains(&candidate.as_str()));
    }
    assert!(draw_candidates(&list, 0).is_empty());
}
