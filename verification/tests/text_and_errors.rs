use std::str::FromStr;

use backtest_core::errors::{AppError, ErrorResponse};
use backtest_core::models::config::{parse_timeframe, timeframe_named, Timeframe};
use backtest_core::models::strategy::{BacktestPrecision, IndicatorType};
use backtest_core::text::{decimal_string, digit_str, is_text, push_decimal, push_padded};

#[test]
fn decimal_text_of_numbers() {
    assert_eq!(decimal_string(0), "0");
    assert_eq!(decimal_string(7), "7");
    assert_eq!(decimal_string(1_234_567_890), "1234567890");
    assert_eq!(decimal_string(u64::MAX), "18446744073709551615");
    assert_eq!(digit_str(9), "9");
    let mut s = String::from("x");
    push_padded(&mut s, 7, 3);
    push_padded(&mut s, 12345, 2);
    push_padded(&mut s, 9, 0);
    push_decimal(&mut s, 40);
    assert_eq!(s, "x0074540");
    assert!(is_text(&"left".to_string(), "left"));
    assert!(!is_text(&"left".to_string(), "Left"));
}

#[test]
fn every_error_has_code_and_message() {
    let cases: Vec<(AppError, &str, &str)> = vec![
        (AppError::InvalidCsvFormat("a".into()), "INVALID_CSV_FORMAT", "Invalid CSV format: a"),
        (AppError::CsvValidation("a".into()), "CSV_VALIDATION", "CSV validation failed: a"),
        (AppError::UnsupportedFormat("a".into()), "UNSUPPORTED_FORMAT", "Unsupported data format: a"),
        (AppError::FileNotFound("a".into()), "FILE_NOT_FOUND", "File not found: a"),
        (AppError::FileRead("a".into()), "FILE_READ", "Failed to read file: a"),
        (AppError::FileWrite("a".into()), "FILE_WRITE", "Failed to write file: a"),
        (AppError::ParquetConversion("a".into()), "PARQUET_CONVERSION", "Parquet conversion failed: a"),
        (AppError::TimeframeConversion("a".into()), "TIMEFRAME_CONVERSION", "Timeframe conversion failed: a"),
        (AppError::CsvParseError { row: 12, message: "bad".into() }, "CSV_PARSE_ERROR", "CSV parse error at row 12: bad"),
        (AppError::Database("a".into()), "DATABASE", "Database error: a"),
        (AppError::NotFound("a".into()), "NOT_FOUND", "Record not found: a"),
        (AppError::InvalidStrategy("a".into()), "INVALID_STRATEGY", "Invalid strategy: a"),
        (AppError::InvalidRule("a".into()), "INVALID_RULE", "Invalid rule: a"),
        (AppError::StrategyNotFound("a".into()), "STRATEGY_NOT_FOUND", "Strategy not found: a"),
        (AppError::BacktestExecution("a".into()), "BACKTEST_EXECUTION", "Backtest execution error: a"),
        (AppError::BacktestCancelled, "BACKTEST_CANCELLED", "Backtest cancelled"),
        (AppError::NoDataInRange, "NO_DATA_IN_RANGE", "No data available for the specified date range"),
        (
            AppError::InsufficientData { needed: 29, available: 28 },
            "INSUFFICIENT_DATA",
            "Insufficient data for indicator calculation: need 29 bars, got 28",
        ),
        (AppError::InvalidIndicatorParams("a".into()), "INVALID_INDICATOR_PARAMS", "Invalid indicator parameters: a"),
        (AppError::OptimizationError("a".into()), "OPTIMIZATION_ERROR", "Optimization error: a"),
        (AppError::OptimizationCancelled, "OPTIMIZATION_CANCELLED", "Optimization cancelled"),
        (AppError::DownloadError("a".into()), "DOWNLOAD_ERROR", "Download failed: a"),
        (AppError::DownloadCancelled, "DOWNLOAD_CANCELLED", "Download cancelled"),
        (
            AppError::TooManyCombinations { count: 640_000, limit: 500_000 },
            "TOO_MANY_COMBINATIONS",
            "Too many combinations: 640000 exceeds limit of 500000",
        ),
        (AppError::InvalidConfig("a".into()), "INVALID_CONFIG", "Invalid configuration: a"),
        (AppError::Serialization("a".into()), "SERIALIZATION", "Serialization error: a"),
        (AppError::Internal("a".into()), "INTERNAL", "Internal error: a"),
    ];
    for (error, code, message) in cases {
        assert_eq!(error.code(), code);
        assert_eq!(error.message(), message);
        let response = ErrorResponse::from_error(&error);
        assert_eq!((response.code.as_str(), response.message.as_str()), (code, message));
        let converted: ErrorResponse = (&error).into();
        assert_eq!(converted.code, code);
    }
}

#[test]
fn timeframe_reads_any_case() {
    assert_eq!(parse_timeframe("h1"), Ok(Timeframe::H1));
    assert_eq!(parse_timeframe("H1"), Ok(Timeframe::H1));
    assert_eq!(parse_timeframe("TiCk"), Ok(Timeframe::Tick));
    assert_eq!(Timeframe::from_str("D1"), Ok(Timeframe::D1));
    assert_eq!(parse_timeframe("m2"), Err("Unknown timeframe: m2".to_string()));
    assert_eq!(parse_timeframe("M2"), Err("Unknown timeframe: M2".to_string()));
    assert_eq!(timeframe_named(&"m15".to_string()), Some(Timeframe::M15));
    assert_eq!(timeframe_named(&"M15".to_string()), None);
    for tf in [Timeframe::Tick, Timeframe::M1, Timeframe::M5, Timeframe::M15, Timeframe::M30, Timeframe::H1, Timeframe::H4, Timeframe::D1] {
        assert_eq!(parse_timeframe(tf.as_str()), Ok(tf));
    }
}

#[test]
fn names_and_defaults() {
    assert_eq!(IndicatorType::BollingerBands.name(), "BollingerBands");
    assert_eq!(IndicatorType::SMA.name(), format!("{:?}", IndicatorType::SMA));
    assert_eq!(IndicatorType::WilliamsR.name(), format!("{:?}", IndicatorType::WilliamsR));
    assert_eq!(BacktestPrecision::default(), BacktestPrecision::SelectedTfOnly);
}
