use csv_query::entity::query::{Order, WhereCondition};
use csv_query::entity::numbers::{compares_numbers, numeric_texts};
use csv_query::entity::record::{filter_row_condition, matches_condition, Record, Records};
use csv_query::readings::NumericReadings;

fn table(rows: &[&[&str]]) -> Records {
    rows.iter().map(|row| row.iter().map(|cell| cell.to_string()).collect()).collect()
}

fn condition(column: &str, operator: &str, value: &str) -> Vec<String> {
    vec![column.to_string(), operator.to_string(), value.to_string()]
}

fn order(column: &str, direction: &str) -> Order {
    Order { column: column.to_string(), condition: direction.to_string() }
}

/// A rank that orders finite numbers as the numbers are ordered.
fn rank(number: f64) -> i64 {
    let number = if number == 0.0 { 0.0 } else { number };
    let bits = number.to_bits() as i64;
    if bits < 0 {
        bits ^ i64::MAX
    } else {
        bits
    }
}

/// The readings of the given texts, each read as a floating-point number.
fn readings_of(texts: &[&str]) -> NumericReadings {
    let mut readings = NumericReadings::new();
    for text in texts {
        if let Ok(number) = text.parse::<f64>() {
            if !number.is_nan() {
                readings.record(text.to_string(), rank(number));
            }
        }
    }
    readings
}

#[test]
fn test_limit_rows() {
    let records: Records = vec![
        vec!["id".to_string(), "name".to_string()],
        vec!["1".to_string(), "name1".to_string()],
        vec!["2".to_string(), "name2".to_string()],
        vec!["3".to_string(), "name3".to_string()],
    ];

    let result = Record::limit_rows(&records, 1);

    assert_eq!(result.len(), 2);
    assert_eq!(result[1], vec!["1".to_string(), "name1".to_string()]);
}

#[test]
fn test_sort_rows_asc() {
    let records: Records = vec![
        vec!["id".to_string(), "name".to_string()],
        vec!["1".to_string(), "name1".to_string()],
        vec!["2".to_string(), "name2".to_string()],
        vec!["3".to_string(), "name3".to_string()],
    ];

    let order: Order = Order {
        column: "id".to_string(),
        condition: "ASC".to_string(),
    };

    let result = Record::sort_rows(&records, &order);
    let expected: Records = vec![
        vec!["id".to_string(), "name".to_string()],
        vec!["1".to_string(), "name1".to_string()],
        vec!["2".to_string(), "name2".to_string()],
        vec!["3".to_string(), "name3".to_string()],
    ];

    assert_eq!(result, expected)
}

#[test]
fn test_sort_rows_desc() {
    let records: Records = vec![
        vec!["id".to_string(), "name".to_string()],
        vec!["1".to_string(), "name1".to_string()],
        vec!["2".to_string(), "name2".to_string()],
        vec!["3".to_string(), "name3".to_string()],
    ];

    let order: Order = Order {
        column: "id".to_string(),
        condition: "DESC".to_string(),
    };

    let result = Record::sort_rows(&records, &order);
    let expected: Records = vec![
        vec!["id".to_string(), "name".to_string()],
        vec!["3".to_string(), "name3".to_string()],
        vec!["2".to_string(), "name2".to_string()],
        vec!["1".to_string(), "name1".to_string()],
    ];

    assert_eq!(result, expected)
}

#[test]
fn test_fileter_rows() {
    let records: Records = vec![
        vec!["id".to_string(), "name".to_string()],
        vec!["1".to_string(), "name1".to_string()],
        vec!["2".to_string(), "name2".to_string()],
        vec!["3".to_string(), "name3".to_string()],
    ];

    let conditions: WhereCondition = vec![
        vec!["id".to_string(), "=".to_string(), "2".to_string()],
    ];

    let result = Record::fileter_rows(&records, &conditions, &NumericReadings::new());
    let expected: Records = vec![
        vec!["id".to_string(), "name".to_string()],
        vec!["2".to_string(), "name2".to_string()],
    ];

    assert_eq!(result, expected)
}

#[test]
fn limit_of_zero_keeps_every_row() {
    let records = table(&[&["id"], &["1"], &["2"], &["3"]]);
    assert_eq!(Record::limit_rows(&records, 0), records);
}

#[test]
fn limit_at_and_beyond_the_number_of_rows() {
    let records = table(&[&["id"], &["1"], &["2"], &["3"]]);
    assert_eq!(Record::limit_rows(&records, 2), table(&[&["id"], &["1"], &["2"]]));
    assert_eq!(Record::limit_rows(&records, 3), records);
    assert_eq!(Record::limit_rows(&records, 4), records);
    assert_eq!(Record::limit_rows(&records, u32::MAX), records);
    assert_eq!(Record::limit_rows(&table(&[&["id"]]), 1), table(&[&["id"]]));
    assert_eq!(Record::limit_rows(&Vec::new(), 5), Records::new());
}

#[test]
fn sort_by_a_column_that_is_not_there_changes_nothing() {
    let records = table(&[&["id", "name"], &["2", "b"], &["1", "a"]]);
    assert_eq!(Record::sort_rows(&records, &order("Id", "ASC")), records);
    assert_eq!(Record::sort_rows(&records, &order("", "ASC")), records);
    assert_eq!(Record::sort_rows(&Vec::new(), &order("id", "ASC")), Records::new());
}

#[test]
fn sort_compares_cells_as_strings() {
    let records = table(&[&["n"], &["10"], &["9"], &["100"], &["b"], &["B"], &[""], &["é"], &["z"]]);
    let sorted = Record::sort_rows(&records, &order("n", "ASC"));
    assert_eq!(
        sorted,
        table(&[&["n"], &[""], &["10"], &["100"], &["9"], &["B"], &["b"], &["z"], &["é"]])
    );
    let sorted = Record::sort_rows(&records, &order("n", "DESC"));
    assert_eq!(
        sorted,
        table(&[&["n"], &["é"], &["z"], &["b"], &["B"], &["9"], &["100"], &["10"], &[""]])
    );
}

#[test]
fn sort_agrees_with_the_order_of_strings() {
    let cells = ["b", "a", "", "ab", "a", "B", "é", "e", "z", "ab", "\u{10000}", "\u{ffff}", "~"];
    let mut records = table(&[&["k", "i"]]);
    for (i, cell) in cells.iter().enumerate() {
        records.push(vec![cell.to_string(), i.to_string()]);
    }
    let mut ascending: Vec<Vec<String>> = records[1..].to_vec();
    ascending.sort_by(|a, b| a[0].cmp(&b[0]));
    ascending.insert(0, records[0].clone());
    assert_eq!(Record::sort_rows(&records, &order("k", "ASC")), ascending);

    let mut descending: Vec<Vec<String>> = records[1..].to_vec();
    descending.sort_by(|a, b| a[0].cmp(&b[0]).reverse());
    descending.insert(0, records[0].clone());
    assert_eq!(Record::sort_rows(&records, &order("k", "DESC")), descending);
}

#[test]
fn sort_keeps_rows_with_equal_cells_in_their_order() {
    let records = table(&[
        &["team", "name"],
        &["2", "d"],
        &["1", "c"],
        &["2", "a"],
        &["1", "b"],
        &["2", "b"],
    ]);
    assert_eq!(
        Record::sort_rows(&records, &order("team", "ASC")),
        table(&[&["team", "name"], &["1", "c"], &["1", "b"], &["2", "d"], &["2", "a"], &["2", "b"]])
    );
    assert_eq!(
        Record::sort_rows(&records, &order("team", "DESC")),
        table(&[&["team", "name"], &["2", "d"], &["2", "a"], &["2", "b"], &["1", "c"], &["1", "b"]])
    );
}

#[test]
fn sort_direction_other_than_desc_is_ascending() {
    let records = table(&[&["id"], &["2"], &["3"], &["1"]]);
    let ascending = table(&[&["id"], &["1"], &["2"], &["3"]]);
    assert_eq!(Record::sort_rows(&records, &order("id", "ASC")), ascending);
    assert_eq!(Record::sort_rows(&records, &order("id", "desc")), ascending);
    assert_eq!(Record::sort_rows(&records, &order("id", "")), ascending);
}

#[test]
fn sort_of_a_sorted_table_returns_the_table() {
    let records = table(&[&["id", "name"], &["1", "x"], &["1", "a"], &["2", "m"], &["3", "b"]]);
    let by_id = order("id", "ASC");
    assert_eq!(Record::sort_rows(&records, &by_id), records);
    let once = Record::sort_rows(&records, &order("name", "DESC"));
    assert_eq!(Record::sort_rows(&once, &order("name", "DESC")), once);
}

#[test]
fn sort_by_the_first_of_two_columns_of_one_name() {
    let records = table(&[&["k", "k"], &["2", "a"], &["1", "b"]]);
    assert_eq!(
        Record::sort_rows(&records, &order("k", "ASC")),
        table(&[&["k", "k"], &["1", "b"], &["2", "a"]])
    );
}

#[test]
fn filter_with_equal_and_not_equal() {
    let records = table(&[&["id", "name"], &["1", "a"], &["2", "b"], &["02", "b"], &["3", "c"]]);
    let none = NumericReadings::new();
    assert_eq!(
        Record::fileter_rows(&records, &vec![condition("name", "=", "b")], &none),
        table(&[&["id", "name"], &["2", "b"], &["02", "b"]])
    );
    assert_eq!(
        Record::fileter_rows(&records, &vec![condition("id", "!=", "2")], &none),
        table(&[&["id", "name"], &["1", "a"], &["02", "b"], &["3", "c"]])
    );
    assert_eq!(
        Record::fileter_rows(
            &records,
            &vec![condition("name", "=", "b"), condition("id", "!=", "2")],
            &none
        ),
        table(&[&["id", "name"], &["02", "b"]])
    );
    assert_eq!(Record::fileter_rows(&records, &Vec::new(), &none), records);
}

#[test]
fn filter_by_a_column_that_is_not_there_changes_nothing() {
    let records = table(&[&["id", "name"], &["1", "a"], &["2", "b"]]);
    let none = NumericReadings::new();
    assert_eq!(
        Record::fileter_rows(&records, &vec![condition("Name", "=", "b")], &none),
        records
    );
    assert_eq!(
        Record::fileter_rows(
            &records,
            &vec![condition("age", "=", "b"), condition("id", "=", "2")],
            &none
        ),
        table(&[&["id", "name"], &["2", "b"]])
    );
    assert_eq!(
        Record::fileter_rows(&Vec::new(), &vec![condition("id", "=", "2")], &none),
        Records::new()
    );
}

#[test]
fn filter_passes_over_rows_that_are_too_short() {
    let records = table(&[&["id", "name"], &["1"], &["2", "b"], &[], &["3", "b", "x"]]);
    let none = NumericReadings::new();
    assert_eq!(
        Record::fileter_rows(&records, &vec![condition("name", "=", "b")], &none),
        table(&[&["id", "name"], &["2", "b"], &["3", "b", "x"]])
    );
    assert_eq!(
        Record::fileter_rows(&records, &vec![condition("name", "!=", "b")], &none),
        table(&[&["id", "name"]])
    );
}

#[test]
fn filter_with_relational_operators() {
    let records = table(&[
        &["id", "score"],
        &["a", "10"],
        &["b", "9.5"],
        &["c", "-3"],
        &["d", "abc"],
        &["e", "1e1"],
        &["f", ""],
        &["g", "100"],
    ]);
    let readings = readings_of(&["10", "9.5", "-3", "abc", "1e1", "", "100", "9.6"]);
    let ids = |operator: &str, value: &str| -> Vec<String> {
        Record::fileter_rows(&records, &vec![condition("score", operator, value)], &readings)
            .iter()
            .skip(1)
            .map(|row| row[0].clone())
            .collect()
    };
    assert_eq!(ids("<", "10"), vec!["b", "c"]);
    assert_eq!(ids("<=", "10"), vec!["a", "b", "c", "e"]);
    assert_eq!(ids(">", "9.6"), vec!["a", "e", "g"]);
    assert_eq!(ids(">=", "100"), vec!["g"]);
    assert_eq!(ids(">", "abc"), Vec::<String>::new());
    assert_eq!(ids("<", "7"), Vec::<String>::new());
}

#[test]
fn filter_with_an_operator_that_is_none_keeps_the_header_alone() {
    let records = table(&[&["id"], &["1"], &["2"]]);
    let readings = readings_of(&["1", "2"]);
    for operator in ["==", "<>", "", "=>", "like"] {
        assert_eq!(
            Record::fileter_rows(&records, &vec![condition("id", operator, "1")], &readings),
            table(&[&["id"]])
        );
    }
}

#[test]
fn filter_again_with_the_same_predicates_changes_nothing() {
    let records = table(&[&["id", "n"], &["1", "5"], &["2", "7"], &["3", "5"], &["4", "x"]]);
    let readings = readings_of(&["1", "2", "3", "4", "5", "7", "x"]);
    let conditions = vec![condition("n", "<=", "5"), condition("id", "!=", "1")];
    let once = Record::fileter_rows(&records, &conditions, &readings);
    assert_eq!(once, table(&[&["id", "n"], &["3", "5"]]));
    assert_eq!(Record::fileter_rows(&once, &conditions, &readings), once);
}

#[test]
fn filter_row_condition_narrows_by_one_predicate() {
    let records = table(&[&["id"], &["1"], &["2"], &["1"]]);
    let none = NumericReadings::new();
    assert_eq!(
        filter_row_condition(records.clone(), &condition("id", "=", "1"), &none),
        table(&[&["id"], &["1"], &["1"]])
    );
    assert_eq!(
        filter_row_condition(records.clone(), &condition("no", "=", "1"), &none),
        records
    );
}

#[test]
fn matches_condition_by_operator() {
    let readings = readings_of(&["2", "10", "2.0"]);
    assert!(matches_condition("2", "=", "2", &readings));
    assert!(!matches_condition("2", "=", "2.0", &readings));
    assert!(matches_condition("2", "!=", "2.0", &readings));
    assert!(matches_condition("2", "<", "10", &readings));
    assert!(!matches_condition("10", "<", "2", &readings));
    assert!(matches_condition("2", "<=", "2.0", &readings));
    assert!(matches_condition("2", ">=", "2.0", &readings));
    assert!(!matches_condition("2", ">", "2.0", &readings));
    assert!(!matches_condition("2", "<", "ten", &readings));
}

#[test]
fn readings_keep_the_last_rank_of_a_text() {
    let mut readings = NumericReadings::new();
    assert_eq!(readings.rank_of("1"), None);
    readings.record("1".to_string(), 10);
    readings.record("2".to_string(), 20);
    readings.record("1".to_string(), 30);
    assert_eq!(readings.rank_of("1"), Some(30));
    assert_eq!(readings.rank_of("2"), Some(20));
    assert_eq!(readings.rank_of(""), None);
}

#[test]
fn readings_recorded_in_any_order() {
    let texts = ["m", "b", "zz", "", "a", "é", "10", "9", "b2", "~", "B", "\u{10000}", "mm"];
    let mut readings = NumericReadings::new();
    for (i, text) in texts.iter().enumerate() {
        assert_eq!(readings.rank_of(text), None);
        readings.record(text.to_string(), i as i64);
    }
    for (i, text) in texts.iter().enumerate() {
        assert_eq!(readings.rank_of(text), Some(i as i64), "{:?}", text);
    }
    for (i, text) in texts.iter().enumerate() {
        readings.record(text.to_string(), -(i as i64));
    }
    for (i, text) in texts.iter().enumerate() {
        assert_eq!(readings.rank_of(text), Some(-(i as i64)), "{:?}", text);
    }
    for text in ["c", "1", "mmm", "zzz", " "] {
        assert_eq!(readings.rank_of(text), None);
    }
}

#[test]
fn sort_of_many_rows_agrees_with_a_stable_sort() {
    let mut records = table(&[&["seq", "key"]]);
    let mut state: u64 = 12345;
    for i in 0..1000 {
        state = state.wrapping_mul(6364136223846793005).wrapping_add(1442695040888963407);
        let key = (state >> 33) % 37;
        records.push(vec![i.to_string(), format!("k{}", key)]);
    }
    for direction in ["ASC", "DESC"] {
        let mut expected: Vec<Vec<String>> = records[1..].to_vec();
        if direction == "ASC" {
            expected.sort_by(|a, b| a[1].cmp(&b[1]));
        } else {
            expected.sort_by(|a, b| a[1].cmp(&b[1]).reverse());
        }
        expected.insert(0, records[0].clone());
        assert_eq!(Record::sort_rows(&records, &order("key", direction)), expected);
    }
}

#[test]
fn sort_of_one_row_and_of_none() {
    let only_header = table(&[&["id"]]);
    assert_eq!(Record::sort_rows(&only_header, &order("id", "ASC")), only_header);
    let one = table(&[&["id"], &["7"]]);
    assert_eq!(Record::sort_rows(&one, &order("id", "DESC")), one);
}

#[test]
fn numeric_texts_by_predicate() {
    let records = table(&[&["a", "b"], &["1", "x"], &["2", "y"]]);
    assert_eq!(
        numeric_texts(&records, &vec![condition("b", ">", "k"), condition("a", "=", "1")]),
        vec!["k", "x", "y"]
    );
    assert_eq!(numeric_texts(&records, &Vec::new()), Vec::<String>::new());
    for operator in ["<", ">", "<=", ">="] {
        assert!(compares_numbers(operator));
    }
    for operator in ["=", "!=", "", "<<", "=>"] {
        assert!(!compares_numbers(operator));
    }
}

#[test]
fn filter_reads_no_other_texts_than_the_listed() {
    let records = table(&[&["id", "n"], &["1", "5"], &["2", "x"], &["3", "7"], &["4", "6.5"]]);
    let conditions = vec![condition("n", ">", "5.5"), condition("id", "!=", "4")];
    let listed = numeric_texts(&records, &conditions);
    let listed: Vec<&str> = listed.iter().map(|text| text.as_str()).collect();
    let all = readings_of(&["1", "2", "3", "4", "5", "x", "7", "6.5", "5.5"]);
    let few = readings_of(&listed);
    assert_eq!(
        Record::fileter_rows(&records, &conditions, &few),
        Record::fileter_rows(&records, &conditions, &all)
    );
    assert_eq!(
        Record::fileter_rows(&records, &conditions, &few),
        table(&[&["id", "n"], &["3", "7"]])
    );
}
