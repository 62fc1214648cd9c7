use csv_query::infra::file::{parse_line, CSVReader};

fn strings(words: &[&str]) -> Vec<String> {
    words.iter().map(|w| w.to_string()).collect()
}

#[test]
fn test_csv_reader_read() {
    let reader = CSVReader::new();
    let records = reader.parse(&strings(&[
        "id, team_id, name, note",
        "1, 1, name1, note1",
        "2, 1, name2, note2",
    ]));

    assert_eq!(records.len(), 3);
    assert_eq!(records[0], vec!["id", "team_id", "name", "note"]);
    assert_eq!(records[1], vec!["1", "1", "name1", "note1"]);
    assert_eq!(records[2], vec!["2", "1", "name2", "note2"]);
}

#[test]
fn a_line_has_one_cell_more_than_commas() {
    assert_eq!(parse_line(""), vec![""]);
    assert_eq!(parse_line(","), vec!["", ""]);
    assert_eq!(parse_line("a,,b,"), vec!["a", "", "b", ""]);
    assert_eq!(parse_line("  "), vec![""]);
    assert_eq!(parse_line(" a b \t, \u{a0}c\u{3000}\r"), vec!["a b", "c"]);
    assert_eq!(parse_line("\"a, b\""), vec!["\"a", "b\""]);
}

#[test]
fn parse_line_agrees_with_split_and_trim() {
    for line in [
        "",
        "a",
        " a , b ",
        ",,",
        "\u{85}x\u{2003},\u{1680}\u{2028}\u{2029}\u{202f}\u{205f}y\u{200a}",
        "\u{200b}z\u{feff}, \u{180e} ",
        "\u{b}\u{c}q\u{1c}",
        "é , ü,\u{10000} ",
    ] {
        let expected: Vec<String> = line.split(",").map(|s| s.trim().to_string()).collect();
        assert_eq!(parse_line(line), expected, "{:?}", line);
    }
}

#[test]
fn every_character_is_white_space_here_as_it_is_to_trim() {
    for code in 0..0x3100u32 {
        if let Some(c) = char::from_u32(code).filter(|c| *c != ',') {
            let text = format!("{}x{}", c, c);
            assert_eq!(parse_line(&text), vec![text.trim().to_string()], "{:x}", code);
        }
    }
}
