use csv_query::application::executor::Results;
use csv_query::application::handler::Handler;
use csv_query::entity::record::Records;
use csv_query::readings::NumericReadings;

fn strings(words: &[&str]) -> Vec<String> {
    words.iter().map(|w| w.to_string()).collect()
}

fn sample() -> Records {
    vec![strings(&["id", "name"]), strings(&["1", "ann"]), strings(&["2", "bob"])]
}

#[test]
fn test_handler_validate() {
    let handler = Handler::new();

    assert!(
        handler
            .validate(&vec!["system_arg".to_string(), "target_arg".to_string()])
            .is_ok()
    );

    assert_eq!(
        handler.validate(&vec!["system_arg".to_string()]),
        Err("not enough args".to_string())
    );
    assert_eq!(
        handler.validate(&vec![
            "system_arg".to_string(),
            "target_arg".to_string(),
            "extra".to_string()
        ]),
        Err("too many args".to_string())
    );
}

#[test]
fn validate_rejects_an_empty_query_before_counting_further() {
    let handler = Handler::new();
    assert_eq!(handler.validate(&Vec::new()), Err("not enough args".to_string()));
    assert_eq!(handler.validate(&strings(&["prog", ""])), Err("not enough args".to_string()));
    assert_eq!(
        handler.validate(&strings(&["prog", "", "extra"])),
        Err("not enough args".to_string())
    );
}

#[test]
fn display_results_writes_tabs_and_hyphens() {
    let handler = Handler::new();
    let result = Results {
        header: strings(&["id", "name", "", "né"]),
        rows: vec![strings(&["1", "ann", "x", "y"]), strings(&["2", "", "", ""]), Vec::new()],
    };
    assert_eq!(
        handler.display_results(result),
        vec!["id\tname\t\tné", "--\t----\t\t--", "1\tann\tx\ty", "2\t\t\t", ""]
    );
    let empty = Results { header: Vec::new(), rows: Vec::new() };
    assert_eq!(handler.display_results(empty), vec!["", ""]);
}

#[test]
fn run_goes_from_arguments_to_lines() {
    let handler = Handler::new();
    let none = NumericReadings::new();
    assert_eq!(
        handler.run(
            strings(&["prog", "select name, id from t.csv order by name desc"]),
            Ok(sample()),
            &none
        ),
        Ok(strings(&["name\tid", "----\t--", "bob\t2", "ann\t1"]))
    );
}

#[test]
fn run_reports_each_failure() {
    let handler = Handler::new();
    let none = NumericReadings::new();
    assert_eq!(
        handler.run(strings(&["prog"]), Ok(sample()), &none),
        Err("not enough args".to_string())
    );
    assert_eq!(
        handler.run(strings(&["prog", "a", "b"]), Ok(sample()), &none),
        Err("too many args".to_string())
    );
    assert_eq!(
        handler.run(strings(&["prog", "from t.csv select id"]), Ok(sample()), &none),
        Err("syntax error: query must start with SELECT".to_string())
    );
    assert_eq!(
        handler.run(strings(&["prog", "select id"]), Ok(sample()), &none),
        Err("syntax error: FROM must specify a file path".to_string())
    );
    assert_eq!(
        handler.run(strings(&["prog", "select id from t.csv"]), Err("denied".to_string()), &none),
        Err("denied".to_string())
    );
}
