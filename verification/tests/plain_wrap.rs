use thar::plain_text::{PlainText, PlainTextItem};

fn text(s: &str) -> PlainTextItem {
    PlainTextItem::Text { text: s.to_string(), width: s.chars().count() }
}

fn widths_of(lines: &[Vec<PlainTextItem>]) -> Vec<Vec<Vec<i32>>> {
    lines
        .iter()
        .map(|l| {
            l.iter()
                .map(|i| match i {
                    PlainTextItem::Text { text, .. } => vec![1; text.chars().count()],
                    _ => vec![],
                })
                .collect()
        })
        .collect()
}

fn show(lines: &[Vec<PlainTextItem>]) -> Vec<Vec<String>> {
    lines
        .iter()
        .map(|l| {
            l.iter()
                .map(|i| match i {
                    PlainTextItem::Text { text, width } => format!("{text}/{width}"),
                    PlainTextItem::Special(c) => format!("^{}", *c as u32),
                    PlainTextItem::Newline => "NL".to_string(),
                })
                .collect()
        })
        .collect()
}

fn wrap(lines: Vec<Vec<PlainTextItem>>, width: usize, wrap_width: usize) -> PlainText {
    let ws = widths_of(&lines);
    PlainText { lines, width }.wrap(wrap_width, &ws)
}

#[test]
fn plain_wrap_keeps_narrow_text() {
    let r = wrap(vec![vec![text("hello")]], 5, 8);
    assert_eq!(show(&r.lines), vec![vec!["hello/5".to_string()]]);
    assert_eq!(r.width, 5);
}

#[test]
fn plain_wrap_breaks_between_words() {
    let r = wrap(vec![vec![text("hello world foo")]], 15, 8);
    assert_eq!(
        show(&r.lines),
        vec![vec!["hello /6".to_string()], vec!["hello world /6".to_string()], vec![]]
    );
    assert_eq!(r.width, 0);
}

#[test]
fn plain_wrap_breaks_long_words() {
    let r = wrap(vec![vec![text("abcdefghij")]], 10, 4);
    assert_eq!(
        show(&r.lines),
        vec![vec!["abcd/4".to_string()], vec!["abcdefgh/4".to_string()], vec![]]
    );
}

#[test]
fn plain_wrap_counts_control_characters() {
    let r = wrap(
        vec![vec![PlainTextItem::Special('\u{1}'), PlainTextItem::Special('\u{2}'), PlainTextItem::Special('\u{3}')]],
        3,
        2,
    );
    assert_eq!(show(&r.lines), vec![vec!["^1".to_string(), "^2".to_string()], vec!["^3".to_string()]]);
    assert_eq!(r.width, 2);
}

#[test]
fn plain_wrap_carries_columns_to_the_next_line() {
    let r = wrap(vec![vec![text("ab"), PlainTextItem::Newline], vec![text("cd")]], 10, 3);
    assert_eq!(show(&r.lines), vec![vec!["ab/2".to_string(), "NL".to_string()], vec![], vec![]]);
}

#[test]
fn plain_wrap_to_zero_columns_uses_one() {
    let r = wrap(vec![vec![text("a")]], 1, 0);
    assert_eq!(show(&r.lines), vec![vec!["a/1".to_string()]]);
    assert_eq!(r.width, 1);
}

#[test]
fn plain_text_written_back_after_parsing() {
    for t in ["", "a", "ab\ncd", "x\n", "\n\n", "héllo wörld\nzz"] {
        let ws = vec![1; t.chars().count()];
        let p = PlainText::parse(t, &ws);
        let mut s = String::new();
        p.write(&mut s);
        assert_eq!(s, format!("{t}\n"));
    }
}

#[test]
fn parsed_text_unwraps_to_itself_and_counts_its_bytes() {
    for t in ["", "ab\ncd", "x\n\ny", "é\u{1}z\n"] {
        let ws = vec![1; t.chars().count()];
        let p = PlainText::parse(t, &ws);
        let u = p.unwrap();
        assert_eq!(show(&u.lines), show(&p.lines));
        assert_eq!(u.width, p.width);
        let mut s = String::new();
        p.write(&mut s);
        assert_eq!(p.write_len(), s.len());
        assert_eq!(p.to_string(), s);
    }
}

#[test]
fn plain_wrap_to_any_wide_width_keeps_the_text() {
    let r = wrap(vec![vec![text("hello")], vec![text("a b")]], 5, usize::MAX);
    assert_eq!(show(&r.lines), vec![vec!["hello/5".to_string()], vec!["a b/3".to_string()]]);
    assert_eq!(r.width, 5);
}

#[test]
fn plain_wrap_when_it_ends_refuses_a_character_wider_than_a_line() {
    let lines = vec![vec![text("ab")]];
    let narrow = widths_of(&lines);
    let p = PlainText { lines, width: 2 };
    let r = p.wrap_when_it_ends(1, &narrow).expect("one-column characters fit a one-column line");
    for line in &r.lines {
        for item in line {
            if let PlainTextItem::Text { width, .. } = item {
                assert!(*width <= 1);
            }
        }
    }
    let wide = vec![vec![vec![2, 1]]];
    assert!(p.wrap_when_it_ends(1, &wide).is_none());
    assert!(p.wrap_when_it_ends(2, &wide).is_some());
}

#[test]
fn rich_wrap_when_it_ends_refuses_a_character_wider_than_a_line() {
    let r = thar::rich_text::RichText::from_plain_text("ab", &[2, 1]);
    let w = vec![vec![vec![2, 1]]];
    assert!(r.wrap_when_it_ends(1, &w).is_none());
    assert!(r.wrap_when_it_ends(3, &w).is_some());
}

#[test]
fn rich_wrap_to_the_widest_width_keeps_every_run() {
    let r = thar::rich_text::RichText::from_plain_text("ab cd", &[1; 5]);
    let w = vec![vec![vec![1; 5]]];
    let t = r.wrap_when_it_ends(usize::MAX, &w).expect("every character fits");
    assert_eq!(t.lines.len(), r.lines.len());
    assert_eq!(t.lines[0].len(), r.lines[0].len());
    assert_eq!(t.width, 0);
}

#[test]
fn plain_wrap_to_a_huge_width_has_no_overflow() {
    let r = wrap(vec![vec![text("hello"), text("world")]], usize::MAX, usize::MAX - 1);
    assert_eq!(show(&r.lines), vec![vec!["hello/5".to_string(), "world/5".to_string()]]);
    assert_eq!(r.width, 0);
}
