use doors::video::TextDisplay;

#[test]
fn display_records_characters_in_order() {
    let mut screen: Vec<char> = Vec::new();
    screen.print_char('>');
    screen.print_str("héllo");
    let shown: String = screen.iter().collect();
    assert_eq!(shown, ">héllo");
}

#[test]
fn repeat_letter_prints_the_count_asked_for() {
    let mut screen: Vec<char> = Vec::new();
    screen.print_repeat_letter('-', 3);
    assert_eq!(screen, vec!['-', '-', '-']);
    let mut none: Vec<char> = Vec::new();
    none.print_repeat_letter('*', 0);
    assert!(none.is_empty());
    let mut many: Vec<char> = Vec::new();
    many.print_repeat_letter('=', 255);
    assert_eq!(many.len(), 255);
}
