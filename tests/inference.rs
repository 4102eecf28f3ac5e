use csv_editor::inference::{classify, widen, DataType};

#[test]
fn classify_examples() {
    assert_eq!(classify("123"), DataType::Int64);
    assert_eq!(classify("123.45"), DataType::Float64);
    assert_eq!(classify("TRUE"), DataType::Boolean);
    assert_eq!(classify("false"), DataType::Boolean);
    assert_eq!(classify(""), DataType::Unknown);
    assert_eq!(classify("abc"), DataType::Utf8);
    assert_eq!(classify("-1e3"), DataType::Float64);
}

#[test]
fn classify_more_forms() {
    assert_eq!(classify(" true "), DataType::Boolean);
    assert_eq!(classify("-42"), DataType::Int64);
    assert_eq!(classify("+7"), DataType::Int64);
    assert_eq!(classify("NaN"), DataType::Float64);
    assert_eq!(classify("-inf"), DataType::Float64);
    assert_eq!(classify(".5"), DataType::Float64);
    assert_eq!(classify("2E+10"), DataType::Float64);
    assert_eq!(classify("12a"), DataType::Utf8);
    assert_eq!(classify("truex"), DataType::Utf8);
    assert_eq!(classify(" "), DataType::Utf8);
}

#[test]
fn widen_follows_lattice() {
    assert_eq!(widen(DataType::Unknown, DataType::Boolean), DataType::Boolean);
    assert_eq!(widen(DataType::Int64, DataType::Boolean), DataType::Int64);
    assert_eq!(widen(DataType::Int64, DataType::Float64), DataType::Float64);
    assert_eq!(widen(DataType::Utf8, DataType::Int64), DataType::Utf8);
    assert_eq!(widen(DataType::Float64, DataType::Unknown), DataType::Float64);
}

#[test]
fn labels_and_levels() {
    assert_eq!(DataType::Boolean.label(), "Boolean");
    assert_eq!(DataType::Float64.label(), "Float");
    assert_eq!(DataType::Int64.label(), "Int");
    assert_eq!(DataType::Utf8.label(), "String");
    assert_eq!(DataType::Unknown.label(), "Unknown");
    assert!(DataType::Unknown.level() < DataType::Boolean.level());
    assert!(DataType::Boolean.level() < DataType::Int64.level());
    assert!(DataType::Int64.level() < DataType::Float64.level());
    assert!(DataType::Float64.level() < DataType::Utf8.level());
}
