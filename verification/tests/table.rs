use karukan::table::{all_table_values, lines_of, lookup_table, split_chars};

fn chars(s: &str) -> Vec<char> {
    s.chars().collect()
}

fn texts(v: Vec<Vec<char>>) -> Vec<String> {
    v.into_iter().map(|c| c.into_iter().collect()).collect()
}

#[test]
fn lines_follow_str_lines() {
    for input in ["", "a", "a\n", "a\r\nb", "a\r\nb\r", "\n\nx", "a\rb\n", "\r\n"] {
        let expected: Vec<String> = input.lines().map(str::to_string).collect();
        assert_eq!(texts(lines_of(&chars(input))), expected, "{input:?}");
    }
}

#[test]
fn split_follows_str_split() {
    for input in ["", "a b", " a  b ", "ab"] {
        let expected: Vec<String> = input.split(' ').map(str::to_string).collect();
        assert_eq!(texts(split_chars(&chars(input), ' ')), expected, "{input:?}");
    }
}

#[test]
fn table_lookup_skips_comments_and_repeats() {
    let data = chars("#X\ta\nX\ta\nY\tb a\nX\ta\nshort\n\tc\nZ\t a\n");
    assert_eq!(texts(lookup_table(&data, '#', &chars("a"), 1, 0)), vec!["X", "Y", "Z"]);
    assert_eq!(texts(lookup_table(&data, '#', &chars("b"), 1, 0)), vec!["Y"]);
    assert!(lookup_table(&data, '#', &chars(""), 1, 0).is_empty());
    assert!(lookup_table(&data, '#', &chars("c"), 1, 0).len() == 1);
    assert_eq!(texts(all_table_values(&data, '#', 1, 0)), vec!["X", "Y", "", "Z"]);
    assert_eq!(texts(all_table_values(&data, '\t', 1, 0)), vec!["#X", "X", "Y", "Z"]);
}
