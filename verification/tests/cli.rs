use transaction_parser::cli::{
    comparer_settings, converter_settings, parse_comparer_args, parse_converter_args,
    report_comparison, ArgsOutcome, ComparerArgs,
};
use transaction_parser::types::Format;

fn strings(v: &[&str]) -> Vec<String> {
    v.iter().map(|s| s.to_string()).collect()
}

#[test]
fn converter_flags_are_read() {
    let args = strings(&["--input", "a.txt", "--input-format", "txt", "--output-format", "csv"]);
    match parse_converter_args(&args) {
        ArgsOutcome::Parsed(a) => {
            assert_eq!(a.input, "a.txt");
            assert_eq!(a.input_format, "txt");
            assert_eq!(a.output_format, "csv");
            assert!(matches!(converter_settings(&a, true), Ok((Format::Text, Format::Csv))));
            assert_eq!(converter_settings(&a, false), Err("файл a.txt не существует".to_string()));
        }
        other => panic!("unexpected {:?}", other),
    }
}

#[test]
fn converter_usage_unknown_and_missing_value() {
    assert!(matches!(parse_converter_args(&strings(&["--input", "a"])), ArgsOutcome::Usage));
    match parse_converter_args(&strings(&["--in", "a", "b", "c", "d", "e"])) {
        ArgsOutcome::Unknown(f) => assert_eq!(f, "--in"),
        other => panic!("unexpected {:?}", other),
    }
    let args = strings(&["--input", "a", "--input", "b", "--input", "c", "--input"]);
    assert!(matches!(parse_converter_args(&args), ArgsOutcome::Aborted));
}

#[test]
fn converter_settings_report_the_first_problem() {
    let args = strings(&["--input", "a", "--input", "b", "--input", "c"]);
    let a = match parse_converter_args(&args) {
        ArgsOutcome::Parsed(a) => a,
        other => panic!("unexpected {:?}", other),
    };
    assert_eq!(a.input, "c");
    assert_eq!(converter_settings(&a, true), Err("не указан входной формат".to_string()));
    let args = strings(&["--input", "a", "--input-format", "xml", "--output-format", "csv"]);
    let a = match parse_converter_args(&args) {
        ArgsOutcome::Parsed(a) => a,
        other => panic!("unexpected {:?}", other),
    };
    assert_eq!(
        converter_settings(&a, true),
        Err("неизвестный формат указанный формат не поддерживается".to_string())
    );
}

#[test]
fn comparer_flags_and_settings() {
    let args = strings(&[
        "--file1", "x.csv", "--input-format1", "csv", "--file2", "y.bin", "--input-format2", "bin",
    ]);
    let a = match parse_comparer_args(&args) {
        ArgsOutcome::Parsed(a) => a,
        other => panic!("unexpected {:?}", other),
    };
    assert_eq!(a.file2, "y.bin");
    assert!(matches!(comparer_settings(&a, true, true), Ok((Format::Csv, Format::Binary))));
    assert_eq!(comparer_settings(&a, true, false), Err("файл y.bin не существует".to_string()));
    let empty = ComparerArgs {
        file1: String::new(),
        input_format1: String::new(),
        file2: String::new(),
        input_format2: String::new(),
    };
    assert_eq!(comparer_settings(&empty, true, true), Err("не указан входной файл 1".to_string()));
    assert!(matches!(parse_comparer_args(&strings(&["--file1", "a"])), ArgsOutcome::Usage));
}

#[test]
fn comparison_reports() {
    assert_eq!(
        report_comparison("a", "b", &(true, None)),
        (true, vec!["# Вывод: транзакции в файлах 'a' и 'b' идентичны".to_string()])
    );
    assert_eq!(
        report_comparison("a", "b", &(false, None)),
        (false, vec!["файлы a и b имеют разное количество записей".to_string()])
    );
    assert_eq!(
        report_comparison("a", "b", &(false, Some(vec![(1, 2), (30, 4)]))),
        (
            false,
            vec![
                "файлы a и b имеют разные записи".to_string(),
                "TX_ID записей, которые различаются".to_string(),
                "1 2".to_string(),
                "30 4".to_string(),
            ]
        )
    );
}
