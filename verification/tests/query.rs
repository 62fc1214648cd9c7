use csv_query::entity::query::{
    append_token, is_reserved_word, parse_clauses, Order, Query, QueryFrom, QueryLimit,
    QueryOrder, QuerySelect, QueryWhereCondition,
};

fn strings(words: &[&str]) -> Vec<String> {
    words.iter().map(|w| w.to_string()).collect()
}

#[test]
fn test_query_validate_succeed() {
    let query = Query::new("select column from ./sample.csv");
    assert!(query.validate().is_ok())
}

#[test]
fn test_query_validate_failed() {
    let query = Query::new("");
    assert_eq!(
        query.validate(),
        Err("syntax error: query must start with SELECT".to_string())
    );
}

#[test]
fn query_test_get_file_path() {
    let query = Query::new("select column from ./sample.csv");
    let result = query.get_file_path();
    assert_eq!(result, Ok("./sample.csv".to_string()));
}

#[test]
fn query_test_get_file_path_with_missing_from() {
    let query = Query::new("select column ./sample.csv");
    let result = query.get_file_path();
    assert_eq!(
        result,
        Err("syntax error: FROM must specify a file path".to_string())
    );
}

#[test]
fn query_test_get_file_path_with_missing_file_path() {
    let query = Query::new("select column from");
    let result = query.get_file_path();
    assert_eq!(
        result,
        Err("syntax error: FROM must specify a file path".to_string())
    );
}

#[test]
fn query_test_get_select() {
    let query = Query::new("select column1, column2 from ./sample.csv");
    let result = query.get_select();
    let expected = vec!["column1".to_string(), "column2".to_string()];
    assert_eq!(result, expected);
}

#[test]
fn query_test_get_select_with_comma() {
    let query = Query::new("select column1 , column2 from ./sample.csv");
    let result = query.get_select();
    let expected = vec!["column1".to_string(), "column2".to_string()];
    assert_eq!(result, expected);
}

#[test]
fn test_parse_clauses_with_quotes() {
    let input1 = r#"select column1 , column2 from ./sample.csv"#;
    let expected = vec![
        "SELECT".to_string(),
        "column1".to_string(),
        "column2".to_string(),
        "FROM".to_string(),
        "./sample.csv".to_string(),
    ];
    assert_eq!(parse_clauses(input1), expected);

    let input2 = r#"select column1, column2 from ./sample.csv"#;
    let expected = vec![
        "SELECT".to_string(),
        "column1".to_string(),
        "column2".to_string(),
        "FROM".to_string(),
        "./sample.csv".to_string(),
    ];
    assert_eq!(parse_clauses(input2), expected);
}

#[test]
fn test_append_token_with_reserved_word() {
    let mut clauses: Vec<String> = Vec::new();
    let mut token = "select".to_string();

    append_token(&mut clauses, &mut token);
    assert_eq!(clauses, vec!["SELECT"]);
    assert!(token.is_empty());
}

#[test]
fn test_append_token_with_non_reserved_word() {
    let mut clauses: Vec<String> = Vec::new();
    let mut token = "column".to_string();

    append_token(&mut clauses, &mut token);
    assert_eq!(clauses, vec!["column"]);
    assert!(token.is_empty());
}

#[test]
fn test_append_token_with_empty_token() {
    let mut clauses: Vec<String> = Vec::new();
    let mut token = "".to_string();

    append_token(&mut clauses, &mut token);
    assert!(clauses.is_empty());
    assert!(token.is_empty());
}

#[test]
fn test_is_reserved_word() {
    assert_eq!(is_reserved_word("SELECT"), true);
    assert_eq!(is_reserved_word("FROM"), true);
    assert_eq!(is_reserved_word("column"), false);
}

#[test]
fn query_from_test_get_file_path() {
    let query = Query::new("select column from ./sample.csv");
    let result = QueryFrom::get_file_path(&query);
    assert_eq!(result, Ok("./sample.csv".to_string()));
}

#[test]
fn query_from_test_get_file_path_with_missing_from() {
    let query = Query::new("select column ./sample.csv");
    let result = QueryFrom::get_file_path(&query);
    assert_eq!(
        result,
        Err("syntax error: FROM must specify a file path".to_string())
    );
}

#[test]
fn query_from_test_get_file_path_with_missing_file_path() {
    let query = Query::new("select column from");
    let result = QueryFrom::get_file_path(&query);
    assert_eq!(
        result,
        Err("syntax error: FROM must specify a file path".to_string())
    );
}

#[test]
fn test_get_limit_with_valid_limit() {
    let query = Query::new("select column from ./sample.csv limit 10");
    assert_eq!(query.get_limit(), 10);
}

#[test]
fn test_get_limit_without_limit() {
    let query = Query::new("select column from ./sample.csv");
    assert_eq!(query.get_limit(), 0);
}

#[test]
fn test_get_limit_with_invalid_limit() {
    let query = Query::new("select column from ./sample.csv limit abc");
    assert_eq!(query.get_limit(), 0);
}

#[test]
fn test_get_order_with_order_clause_asc() {
    let query = Query::new("select column from ./sample.csv order by id asc");

    let expected: Order = Order {
        column: "id".to_string(),
        condition: "ASC".to_string(),
    };

    let result = query.get_order();

    assert_eq!(result, expected);
}

#[test]
fn test_get_order_with_order_clause_desc() {
    let query = Query::new("select column from ./sample.csv order by id desc");

    let expected: Order = Order {
        column: "id".to_string(),
        condition: "DESC".to_string(),
    };

    let result = query.get_order();

    assert_eq!(result, expected);
}

#[test]
fn test_get_order_with_order_clause_default() {
    let query = Query::new("select column from ./sample.csv order by id");

    let expected: Order = Order {
        column: "id".to_string(),
        condition: "ASC".to_string(),
    };

    let result = query.get_order();

    assert_eq!(result, expected);
}

#[test]
fn test_get_order_with_no_order_clause() {
    let query = Query::new("select column from ./sample.csv");

    let expected: Order = Order {
        column: String::new(),
        condition: "ASC".to_string(),
    };

    let result = query.get_order();

    assert_eq!(result, expected);
}

#[test]
fn query_select_test_get_select() {
    let query = Query::new("select column1, column2 from ./sample.csv");
    let result = QuerySelect::get_select(&query);
    let expected = vec!["column1".to_string(), "column2".to_string()];
    assert_eq!(result, expected);
}

#[test]
fn query_select_test_get_select_with_comma() {
    let query = Query::new("select column1 , column2 from ./sample.csv");
    let result = QuerySelect::get_select(&query);
    let expected = vec!["column1".to_string(), "column2".to_string()];
    assert_eq!(result, expected);
}

#[test]
fn tokens_keep_case_of_other_words() {
    assert_eq!(
        parse_clauses("SeLeCt Name FrOm Data.CSV wHeRe Name = Bob OrDeR bY Name dEsC lImIt 3"),
        strings(&[
            "SELECT", "Name", "FROM", "Data.CSV", "WHERE", "Name", "=", "Bob", "ORDER", "BY",
            "Name", "DESC", "LIMIT", "3",
        ])
    );
    assert_eq!(parse_clauses("x and y asc"), strings(&["x", "AND", "y", "ASC"]));
}

#[test]
fn tokens_of_quoted_spans() {
    assert_eq!(
        parse_clauses(r#"select "first name" from t.csv"#),
        strings(&["SELECT", "first name", "FROM", "t.csv"])
    );
    assert_eq!(
        parse_clauses(r#"select "a,b" from t.csv"#),
        strings(&["SELECT", "a", ", ", "b", "FROM", "t.csv"])
    );
    assert_eq!(parse_clauses(r#"a"b"c"#), strings(&["abc"]));
    assert_eq!(parse_clauses(r#""from""#), strings(&["FROM"]));
}

#[test]
fn tokens_of_bare_commas_and_spaces() {
    assert_eq!(parse_clauses("col1,col2"), strings(&["col1col2"]));
    assert_eq!(parse_clauses(" , ,, "), Vec::<String>::new());
    assert_eq!(parse_clauses("   a    b  "), strings(&["a", "b"]));
    assert_eq!(parse_clauses(""), Vec::<String>::new());
}

#[test]
fn reserved_words_in_any_case() {
    for word in ["select", "from", "limit", "order", "by", "asc", "desc", "where", "and"] {
        assert!(is_reserved_word(word));
        assert!(is_reserved_word(&word.to_uppercase()));
    }
    assert!(is_reserved_word("Where"));
    assert!(!is_reserved_word("selects"));
    assert!(!is_reserved_word(""));
    assert!(!is_reserved_word("fr\u{f6}m"));
}

#[test]
fn validate_looks_at_the_first_token_only() {
    assert!(Query::new("select").validate().is_ok());
    assert!(Query::new("SELECT from").validate().is_ok());
    assert_eq!(
        Query::new("from x select y").validate(),
        Err("syntax error: query must start with SELECT".to_string())
    );
    assert_eq!(
        Query::new("selects a from b").validate(),
        Err("syntax error: query must start with SELECT".to_string())
    );
}

#[test]
fn file_path_is_the_token_behind_the_first_from() {
    let query = Query::new("select a from x.csv from y.csv");
    assert_eq!(query.get_file_path(), Ok("x.csv".to_string()));
    let query = Query::new("select a from x.csv from");
    assert_eq!(query.get_file_path(), Ok("x.csv".to_string()));
    let query = Query::new("from");
    assert_eq!(
        query.get_file_path(),
        Err("syntax error: FROM must specify a file path".to_string())
    );
}

#[test]
fn select_edge_cases() {
    assert_eq!(Query::new("select from x").get_select(), Vec::<String>::new());
    assert_eq!(Query::new("").get_select(), Vec::<String>::new());
    assert_eq!(Query::new("select * from x").get_select(), strings(&["*"]));
    assert_eq!(Query::new("select a b").get_select(), strings(&["a", "b"]));
    assert_eq!(
        Query::new(r#"select "a,b" c from x"#).get_select(),
        strings(&["a", "b", "c"])
    );
    assert_eq!(Query::new("from a from b").get_select(), strings(&["a"]));
}

#[test]
fn limit_edge_cases() {
    assert_eq!(Query::new("select a from x limit").get_limit(), 0);
    assert_eq!(Query::new("select a from x limit 0").get_limit(), 0);
    assert_eq!(Query::new("select a from x limit +7").get_limit(), 7);
    assert_eq!(Query::new("select a from x limit 007").get_limit(), 7);
    assert_eq!(Query::new("select a from x limit -1").get_limit(), 0);
    assert_eq!(Query::new("select a from x limit +").get_limit(), 0);
    assert_eq!(Query::new("select a from x limit ++1").get_limit(), 0);
    assert_eq!(Query::new("select a from x limit 1.5").get_limit(), 0);
    assert_eq!(Query::new("select a from x limit 12a").get_limit(), 0);
    assert_eq!(Query::new("select a from x limit 4294967295").get_limit(), 4294967295);
    assert_eq!(Query::new("select a from x limit 4294967296").get_limit(), 0);
    assert_eq!(Query::new("select a from x limit 99999999999999999999999").get_limit(), 0);
    assert_eq!(Query::new("select a from x limit 3 limit 4").get_limit(), 3);
    assert_eq!(Query::new(r#"select a from x limit " 5""#).get_limit(), 0);
}

#[test]
fn limit_agrees_with_the_parsing_of_integers() {
    for text in [
        "0", "1", "10", "+10", "0010", "-0", "+", "", "4294967295", "4294967296", "42949672950",
        "1_000", "0x10", "12 ", "٣", "1e3",
    ] {
        let query = Query { clauses: vec!["LIMIT".to_string(), text.to_string()] };
        assert_eq!(query.get_limit(), text.parse::<u32>().unwrap_or(0), "{:?}", text);
    }
}

#[test]
fn order_edge_cases() {
    let default = || Order { column: String::new(), condition: "ASC".to_string() };
    assert_eq!(Query::new("select a from x order").get_order(), default());
    assert_eq!(Query::new("select a from x order by").get_order(), default());
    assert_eq!(
        Query::new("select a from x order on id").get_order(),
        Order { column: "id".to_string(), condition: "ASC".to_string() }
    );
    assert_eq!(
        Query::new("select a from x order by id sideways").get_order(),
        Order { column: "id".to_string(), condition: "ASC".to_string() }
    );
    assert_eq!(
        Query::new("select a from x order by id desc limit 2").get_order(),
        Order { column: "id".to_string(), condition: "DESC".to_string() }
    );
    assert_eq!(
        Query::new("order by id desc").get_order(),
        Order { column: "id".to_string(), condition: "DESC".to_string() }
    );
}

#[test]
fn test_get_where() {
    let query = Query::new("select column from ./sample.csv where id = 3 and name = name3");
    let result = query.get_where();
    // With `AND` left out, the second group of four starts at `name`, and
    // only two words follow it.
    let expected = vec![vec!["id".to_string(), "=".to_string(), "3".to_string()]];
    assert_eq!(result, expected);
    assert_ne!(
        result,
        vec![
            vec!["id".to_string(), "=".to_string(), "3".to_string()],
            vec!["name".to_string(), "=".to_string(), "name3".to_string()],
        ]
    );
}

#[test]
fn where_reads_groups_of_four() {
    let where_of = |text: &str| Query::new(text).get_where();
    assert_eq!(where_of("select a from x"), Vec::<Vec<String>>::new());
    assert_eq!(where_of("where id = 3"), Vec::<Vec<String>>::new());
    assert_eq!(where_of("select a from x where id ="), Vec::<Vec<String>>::new());
    assert_eq!(where_of("select a from x where id = 3"), vec![strings(&["id", "=", "3"])]);
    assert_eq!(
        where_of("select a from x where id = 3 order by id"),
        vec![strings(&["id", "=", "3"])]
    );
    assert_eq!(
        where_of("select a from x where id = 3 , name != n limit 1"),
        vec![strings(&["id", "=", "3"]), strings(&["!=", "n", "LIMIT"])]
    );
    assert_eq!(
        where_of("select a from x where id = 3 also name != n then id >= 2"),
        vec![
            strings(&["id", "=", "3"]),
            strings(&["name", "!=", "n"]),
            strings(&["id", ">=", "2"]),
        ]
    );
    assert_eq!(
        where_of("select a from x where and id and = and 3 and"),
        vec![strings(&["id", "=", "3"])]
    );
    assert_eq!(where_of("select a from x where order by id asc"), vec![strings(&["ORDER", "BY", "id"])]);
}
