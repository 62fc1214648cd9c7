use csv_query::command::{parse_command, Command};
use csv_query::entity::record::Records;
use csv_query::executor::{CliResult, Executor};
use csv_query::file::CSVReader;
use csv_query::handler::Handler;

fn strings(words: &[&str]) -> Vec<String> {
    words.iter().map(|w| w.to_string()).collect()
}

fn sample() -> Records {
    vec![
        strings(&["id", "team_id", "name", "note"]),
        strings(&["1", "1", "name1", "note1"]),
        strings(&["2", "1", "name2", "note2"]),
        strings(&["3", "2", "name3", "note3"]),
        strings(&["4", "3", "name4", "note4"]),
        strings(&["5", "4", "name5", "note5"]),
        strings(&["6", "1", "name6", "note5"]),
        strings(&["7", "2", "name7", "note6"]),
    ]
}

#[test]
fn test_all_succeed() {
    let header = vec!["id".into(), "team_id".into(), "name".into(), "note".into()];
    let rows = vec![
        vec!["1".into(), "1".into(), "name1".into(), "note1".into()],
        vec!["2".into(), "1".into(), "name2".into(), "note2".into()],
        vec!["3".into(), "2".into(), "name3".into(), "note3".into()],
        vec!["4".into(), "3".into(), "name4".into(), "note4".into()],
        vec!["5".into(), "4".into(), "name5".into(), "note5".into()],
        vec!["6".into(), "1".into(), "name6".into(), "note5".into()],
        vec!["7".into(), "2".into(), "name7".into(), "note6".into()],
    ];
    let want = CliResult { header, rows };

    let executor = Executor::new(Command::All, "sample.csv".into());
    let got = executor.all(Ok(sample())).unwrap();
    assert_eq!(want, got);
}

#[test]
fn test_headers_succeed() {
    let header = vec!["id".into(), "team_id".into(), "name".into(), "note".into()];
    let want = CliResult {
        header,
        rows: Vec::new(),
    };

    let executor = Executor::new(Command::Headers, "sample.csv".into());
    let got = executor.headers(Ok(sample())).unwrap();
    assert_eq!(want, got);
}

#[test]
fn test_count_succeed() {
    let header = vec!["count".into()];
    let rows = vec![vec!["7".into()]];
    let want = CliResult { header, rows };

    let executor = Executor::new(Command::Count, "sample.csv".into());
    let got = executor.count(Ok(sample())).unwrap();
    assert_eq!(want, got);
}

#[test]
fn test_validate_succeed() {
    let handler = Handler::new(vec!["test.csv".into(), "all".into()]);
    assert!(handler.validate().is_ok());

    let handler = Handler::new(vec!["test.csv".into(), "headers".into()]);
    assert!(handler.validate().is_ok());

    let handler = Handler::new(vec!["test.csv".into(), "count".into()]);
    assert!(handler.validate().is_ok());
}

#[test]
fn test_validate_failed_not_enough_args() {
    let handler = Handler::new(vec![]);
    let err = handler.validate().unwrap_err();
    assert_eq!(err.to_string(), "not enough args")
}

#[test]
fn test_validate_failed_no_command_provided() {
    let handler = Handler::new(vec!["test.csv".into()]);
    let err = handler.validate().unwrap_err();
    assert_eq!(err.to_string(), "no command provided");
}

#[test]
fn test_validate_failed_too_many_args() {
    let handler = Handler::new(vec!["test.csv".into(), "all".into(), "extra".into()]);
    let err = handler.validate().unwrap_err();
    assert_eq!(err.to_string(), "too many args");
}

#[test]
fn test_validate_failed_unkown_command() {
    let handler = Handler::new(vec!["test.csv".into(), "delete".into()]);
    let err = handler.validate().unwrap_err();
    assert_eq!(err.to_string(), "unkown command: delete");
}

#[test]
fn test_get_command_succeed() {
    let handler = Handler::new(vec!["test.csv".into(), "all".into()]);
    let command = handler.get_command().unwrap();
    assert_eq!(command, Command::All);

    let handler = Handler::new(vec!["test.csv".into(), "headers".into()]);
    let command = handler.get_command().unwrap();
    assert_eq!(command, Command::Headers);

    let handler = Handler::new(vec!["test.csv".into(), "count".into()]);
    let command = handler.get_command().unwrap();
    assert_eq!(command, Command::Count);
}

#[test]
fn test_get_command_failed_not_enough_args() {
    let handler = Handler::new(vec!["test.csv".into()]);
    let err = handler.get_command().unwrap_err();
    assert_eq!(err.to_string(), "not enough args");
}

#[test]
fn test_get_command_failed_unkown_command() {
    let handler = Handler::new(vec!["test.csv".into(), "delete".into()]);
    let err = handler.get_command().unwrap_err();
    assert_eq!(err.to_string(), "unkown command: delete");
}

#[test]
fn test_get_file_path_succeed() {
    let handler = Handler::new(vec!["test.csv".into(), "delete".into()]);
    let file_path = handler.get_file_path().unwrap();
    assert_eq!(file_path, "test.csv");
}

#[test]
fn test_get_file_path_failed_not_enough_args() {
    let handler = Handler::new(vec![]);
    let err = handler.get_file_path().unwrap_err();
    assert_eq!(err.to_string(), "not enough args");
}

#[test]
fn test_csv_reader_read_success() {
    let lines = strings(&["id, team_id, name, note", "1, 1, name1, note1", "2, 1, name2, note2"]);

    let reader = CSVReader::new("test.csv".to_string());
    assert_eq!(reader.file_path(), "test.csv");
    let records = reader.parse(&lines);

    assert_eq!(records.len(), 3);
    assert_eq!(records[0], vec!["id", "team_id", "name", "note"]);
    assert_eq!(records[1], vec!["1", "1", "name1", "note1"]);
    assert_eq!(records[2], vec!["2", "1", "name2", "note2"]);
}

#[test]
fn commands_by_name() {
    assert_eq!(parse_command("all"), Some(Command::All));
    assert_eq!(parse_command("headers"), Some(Command::Headers));
    assert_eq!(parse_command("count"), Some(Command::Count));
    assert_eq!(parse_command("All"), None);
    assert_eq!(parse_command(""), None);
}

#[test]
fn run_gives_the_command_and_the_path() {
    let handler = Handler::new(strings(&["test.csv", "count"]));
    assert_eq!(handler.run(), Ok((Command::Count, "test.csv".to_string())));
    assert_eq!(Handler::new(Vec::new()).run(), Err("not enough args".to_string()));
    assert_eq!(
        Handler::new(strings(&["test.csv"])).run(),
        Err("no command provided".to_string())
    );
    assert_eq!(
        Handler::new(strings(&["test.csv", "all", "x"])).run(),
        Err("too many args".to_string())
    );
    assert_eq!(
        Handler::new(strings(&["test.csv", "drop"])).run(),
        Err("unkown command: drop".to_string())
    );
}

#[test]
fn executor_runs_its_command() {
    let all = Executor::new(Command::All, "t.csv".to_string()).run(Ok(sample())).unwrap();
    assert_eq!(all.header, sample()[0]);
    assert_eq!(all.rows, sample()[1..].to_vec());
    let headers = Executor::new(Command::Headers, "t.csv".to_string()).run(Ok(sample())).unwrap();
    assert_eq!(headers, CliResult { header: sample()[0].clone(), rows: Vec::new() });
    let count = Executor::new(Command::Count, "t.csv".to_string()).run(Ok(sample())).unwrap();
    assert_eq!(count, CliResult { header: strings(&["count"]), rows: vec![strings(&["7"])] });
    assert_eq!(
        Executor::new(Command::All, "t.csv".to_string()).run(Err("failed to open: t.csv".to_string())),
        Err("failed to open: t.csv".to_string())
    );
    assert_eq!(Executor::new(Command::All, "t.csv".to_string()).file_path(), "t.csv");
}

#[test]
fn count_writes_decimal_digits() {
    let count_of = |rows: usize| -> String {
        let mut records: Records = vec![strings(&["id"])];
        for i in 0..rows {
            records.push(vec![i.to_string()]);
        }
        let result = Executor::new(Command::Count, "t.csv".to_string()).count(Ok(records)).unwrap();
        result.rows[0][0].clone()
    };
    assert_eq!(count_of(0), "0");
    assert_eq!(count_of(9), "9");
    assert_eq!(count_of(10), "10");
    assert_eq!(count_of(1203), "1203");
    let empty = Executor::new(Command::Count, "t.csv".to_string()).count(Ok(Vec::new())).unwrap();
    assert_eq!(empty.rows, vec![strings(&["0"])]);
}

#[test]
fn display_shows_the_header_alone_or_the_table() {
    let result = || CliResult {
        header: strings(&["id", "name"]),
        rows: vec![strings(&["1", "ann"]), strings(&["2", "bob"])],
    };
    let handler = Handler::new(strings(&["t.csv", "headers"]));
    assert!(handler.is_command_headers());
    assert_eq!(handler.display(result()), vec!["id, name"]);
    let handler = Handler::new(strings(&["t.csv"]));
    assert!(handler.is_command_headers());
    let handler = Handler::new(strings(&["t.csv", "all"]));
    assert!(!handler.is_command_headers());
    assert_eq!(handler.display(result()), vec!["id\tname", "--\t----", "1\tann", "2\tbob"]);
    let accented = CliResult { header: strings(&["né", ""]), rows: Vec::new() };
    assert_eq!(handler.display(accented), vec!["né\t", "---\t"]);
}
