use csv_query::application::executor::{
    project, resolve_columns, rows_cover_header, texts_to_read, Executor, Results,
};
use csv_query::entity::query::Query;
use csv_query::entity::record::Records;
use csv_query::infra::file::CSVReader;
use csv_query::readings::NumericReadings;

fn table(rows: &[&[&str]]) -> Records {
    rows.iter().map(|row| row.iter().map(|cell| cell.to_string()).collect()).collect()
}

fn sample() -> Records {
    table(&[
        &["id", "team_id", "name", "note"],
        &["1", "1", "name1", "note1"],
        &["2", "1", "name2", "note2"],
        &["3", "2", "name3", "note3"],
        &["4", "3", "name4", "note4"],
        &["5", "4", "name5", "note5"],
        &["6", "1", "name6", "note5"],
        &["7", "2", "name7", "note6"],
    ])
}

fn readings() -> NumericReadings {
    let mut readings = NumericReadings::new();
    for n in 0..10i64 {
        readings.record(n.to_string(), n);
    }
    readings
}

fn run(query: &str, loaded: Result<Records, String>) -> Result<(Vec<String>, Records), String> {
    let executor = Executor::new(CSVReader::new());
    executor
        .execute(Query::new(query), loaded, &readings())
        .map(|Results { header, rows }| (header, rows))
}

#[test]
fn select_all_returns_every_column_in_order() {
    let (header, rows) = run("select * from sample.csv", Ok(sample())).unwrap();
    assert_eq!(header, sample()[0]);
    assert_eq!(rows, sample()[1..].to_vec());
}

#[test]
fn select_names_columns_in_any_case_and_order() {
    let (header, rows) = run("select NAME, Id from sample.csv limit 2", Ok(sample())).unwrap();
    assert_eq!(header, vec!["name", "id"]);
    assert_eq!(rows, table(&[&["name1", "1"], &["name2", "2"]]));
}

#[test]
fn select_drops_names_that_the_header_lacks() {
    let (header, rows) = run("select age, id, id from sample.csv limit 1", Ok(sample())).unwrap();
    assert_eq!(header, vec!["id", "id"]);
    assert_eq!(rows, table(&[&["1", "1"]]));
    let (header, rows) = run("select age from sample.csv limit 1", Ok(sample())).unwrap();
    assert_eq!(header, Vec::<String>::new());
    assert_eq!(rows, vec![Vec::<String>::new()]);
}

#[test]
fn wildcard_beside_a_name_is_a_name() {
    let (header, _) = run("select * id from sample.csv", Ok(sample())).unwrap();
    assert_eq!(header, vec!["id"]);
}

#[test]
fn filter_then_sort_then_limit_then_project() {
    let (header, rows) = run(
        "select name from sample.csv where team_id != 1 order by id desc limit 2",
        Ok(sample()),
    )
    .unwrap();
    assert_eq!(header, vec!["name"]);
    assert_eq!(rows, table(&[&["name7"], &["name5"]]));
}

#[test]
fn relational_predicates_use_the_readings() {
    let (_, rows) = run("select id from sample.csv where team_id >= 2", Ok(sample())).unwrap();
    assert_eq!(rows, table(&[&["3"], &["4"], &["5"], &["7"]]));
}

#[test]
fn empty_table_gives_an_empty_result() {
    let (header, rows) = run("select * from sample.csv", Ok(Vec::new())).unwrap();
    assert_eq!(header, Vec::<String>::new());
    assert_eq!(rows, Records::new());
}

#[test]
fn missing_file_path_fails_before_anything_else() {
    let no_path = Err("syntax error: FROM must specify a file path".to_string());
    assert_eq!(run("select *", Ok(sample())), no_path);
    assert_eq!(run("select * from", Err("gone".to_string())), no_path);
}

#[test]
fn read_error_is_handed_on() {
    assert_eq!(
        run("select * from sample.csv", Err("No such file or directory (os error 2)".to_string())),
        Err("No such file or directory (os error 2)".to_string())
    );
}

#[test]
fn resolve_columns_against_a_header() {
    let header: Vec<String> = vec!["Id".to_string(), "name".to_string(), "ID".to_string()];
    let select = |names: &[&str]| -> Vec<String> { names.iter().map(|n| n.to_string()).collect() };
    assert_eq!(resolve_columns(&select(&["*"]), &header), vec![0, 1, 2]);
    assert_eq!(resolve_columns(&select(&["id"]), &header), vec![0]);
    assert_eq!(resolve_columns(&select(&["NAME", "x", "iD"]), &header), vec![1, 0]);
    assert_eq!(resolve_columns(&select(&[]), &header), Vec::<usize>::new());
}

#[test]
fn project_picks_cells() {
    let row: Vec<String> = vec!["a".to_string(), "b".to_string(), "c".to_string()];
    assert_eq!(project(&row, &vec![2, 0, 2]), vec!["c", "a", "c"]);
    assert_eq!(project(&row, &Vec::new()), Vec::<String>::new());
}

#[test]
fn texts_to_read_are_the_values_and_cells_of_relational_predicates() {
    let records = table(&[&["id", "n", "m"], &["1", "5", "x"], &["2"], &["3", "7", "y"]]);
    let texts = |query: &str| texts_to_read(&Query::new(query), &records);
    assert_eq!(texts("select * from t where n < 6"), vec!["6", "5", "7"]);
    assert_eq!(texts("select * from t where n = 6"), Vec::<String>::new());
    assert_eq!(texts("select * from t where n != 6"), Vec::<String>::new());
    assert_eq!(texts("select * from t where n like 6"), Vec::<String>::new());
    assert_eq!(texts("select * from t where z >= 6"), Vec::<String>::new());
    assert_eq!(texts("select * from t"), Vec::<String>::new());
    assert_eq!(
        texts("select * from t where id >= 2 or m <= b"),
        vec!["2", "1", "2", "3", "b", "x", "y"]
    );
    assert_eq!(
        texts_to_read(&Query::new("select * from t where n < 6"), &Vec::new()),
        Vec::<String>::new()
    );
}

#[test]
fn rows_cover_header_counts_cells() {
    assert!(rows_cover_header(&Vec::new()));
    assert!(rows_cover_header(&table(&[&["a", "b"]])));
    assert!(rows_cover_header(&table(&[&["a", "b"], &["1", "2"], &["1", "2", "3"]])));
    assert!(!rows_cover_header(&table(&[&["a", "b"], &["1", "2"], &["1"]])));
}
