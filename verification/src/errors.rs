use vstd::prelude::*;
use vstd::string::StringExecFns;
use crate::text::{decimal, push_decimal};

verus! {

/// All errors of the application, grouped by domain.
#[derive(Debug)]
pub enum AppError {
    InvalidCsvFormat(String),
    CsvValidation(String),
    UnsupportedFormat(String),
    FileNotFound(String),
    FileRead(String),
    FileWrite(String),
    ParquetConversion(String),
    TimeframeConversion(String),
    CsvParseError { row: usize, message: String },
    Database(String),
    NotFound(String),
    InvalidStrategy(String),
    InvalidRule(String),
    StrategyNotFound(String),
    BacktestExecution(String),
    BacktestCancelled,
    NoDataInRange,
    InsufficientData { needed: usize, available: usize },
    InvalidIndicatorParams(String),
    OptimizationError(String),
    OptimizationCancelled,
    DownloadError(String),
    DownloadCancelled,
    TooManyCombinations { count: usize, limit: usize },
    InvalidConfig(String),
    Serialization(String),
    Internal(String),
}

/// An error as the front end receives it: a stable machine code and a human
/// message.
#[derive(Debug, Clone)]
pub struct ErrorResponse {
    pub code: String,
    pub message: String,
}

impl AppError {
    /// The stable machine code of each error.
    pub open spec fn code_of(&self) -> Seq<char> {
        match self {
            AppError::InvalidCsvFormat(_) => "INVALID_CSV_FORMAT"@,
            AppError::CsvValidation(_) => "CSV_VALIDATION"@,
            AppError::UnsupportedFormat(_) => "UNSUPPORTED_FORMAT"@,
            AppError::FileNotFound(_) => "FILE_NOT_FOUND"@,
            AppError::FileRead(_) => "FILE_READ"@,
            AppError::FileWrite(_) => "FILE_WRITE"@,
            AppError::ParquetConversion(_) => "PARQUET_CONVERSION"@,
            AppError::TimeframeConversion(_) => "TIMEFRAME_CONVERSION"@,
            AppError::CsvParseError { .. } => "CSV_PARSE_ERROR"@,
            AppError::Database(_) => "DATABASE"@,
            AppError::NotFound(_) => "NOT_FOUND"@,
            AppError::InvalidStrategy(_) => "INVALID_STRATEGY"@,
            AppError::InvalidRule(_) => "INVALID_RULE"@,
            AppError::StrategyNotFound(_) => "STRATEGY_NOT_FOUND"@,
            AppError::BacktestExecution(_) => "BACKTEST_EXECUTION"@,
            AppError::BacktestCancelled => "BACKTEST_CANCELLED"@,
            AppError::NoDataInRange => "NO_DATA_IN_RANGE"@,
            AppError::InsufficientData { .. } => "INSUFFICIENT_DATA"@,
            AppError::InvalidIndicatorParams(_) => "INVALID_INDICATOR_PARAMS"@,
            AppError::OptimizationError(_) => "OPTIMIZATION_ERROR"@,
            AppError::OptimizationCancelled => "OPTIMIZATION_CANCELLED"@,
            AppError::DownloadError(_) => "DOWNLOAD_ERROR"@,
            AppError::DownloadCancelled => "DOWNLOAD_CANCELLED"@,
            AppError::TooManyCombinations { .. } => "TOO_MANY_COMBINATIONS"@,
            AppError::InvalidConfig(_) => "INVALID_CONFIG"@,
            AppError::Serialization(_) => "SERIALIZATION"@,
            AppError::Internal(_) => "INTERNAL"@,
        }
    }

    /// The human message of each error.
    pub open spec fn message_of(&self) -> Seq<char> {
        match self {
            AppError::InvalidCsvFormat(m) => "Invalid CSV format: "@ + m@,
            AppError::CsvValidation(m) => "CSV validation failed: "@ + m@,
            AppError::UnsupportedFormat(m) => "Unsupported data format: "@ + m@,
            AppError::FileNotFound(m) => "File not found: "@ + m@,
            AppError::FileRead(m) => "Failed to read file: "@ + m@,
            AppError::FileWrite(m) => "Failed to write file: "@ + m@,
            AppError::ParquetConversion(m) => "Parquet conversion failed: "@ + m@,
            AppError::TimeframeConversion(m) => "Timeframe conversion failed: "@ + m@,
            AppError::CsvParseError { row, message } => "CSV parse error at row "@ + decimal(*row as nat) + ": "@ + message@,
            AppError::Database(m) => "Database error: "@ + m@,
            AppError::NotFound(m) => "Record not found: "@ + m@,
            AppError::InvalidStrategy(m) => "Invalid strategy: "@ + m@,
            AppError::InvalidRule(m) => "Invalid rule: "@ + m@,
            AppError::StrategyNotFound(m) => "Strategy not found: "@ + m@,
            AppError::BacktestExecution(m) => "Backtest execution error: "@ + m@,
            AppError::BacktestCancelled => "Backtest cancelled"@,
            AppError::NoDataInRange => "No data available for the specified date range"@,
            AppError::InsufficientData { needed, available } => "Insufficient data for indicator calculation: need "@ + decimal(*needed as nat) + " bars, got "@ + decimal(*available as nat),
            AppError::InvalidIndicatorParams(m) => "Invalid indicator parameters: "@ + m@,
            AppError::OptimizationError(m) => "Optimization error: "@ + m@,
            AppError::OptimizationCancelled => "Optimization cancelled"@,
            AppError::DownloadError(m) => "Download failed: "@ + m@,
            AppError::DownloadCancelled => "Download cancelled"@,
            AppError::TooManyCombinations { count, limit } => "Too many combinations: "@ + decimal(*count as nat) + " exceeds limit of "@ + decimal(*limit as nat),
            AppError::InvalidConfig(m) => "Invalid configuration: "@ + m@,
            AppError::Serialization(m) => "Serialization error: "@ + m@,
            AppError::Internal(m) => "Internal error: "@ + m@,
        }
    }

    /// Returns the stable machine code of the error.
    pub fn code(&self) -> (code: &'static str)
        ensures
            code@ == self.code_of(),
    {
        match self {
            AppError::InvalidCsvFormat(_) => "INVALID_CSV_FORMAT",
            AppError::CsvValidation(_) => "CSV_VALIDATION",
            AppError::UnsupportedFormat(_) => "UNSUPPORTED_FORMAT",
            AppError::FileNotFound(_) => "FILE_NOT_FOUND",
            AppError::FileRead(_) => "FILE_READ",
            AppError::FileWrite(_) => "FILE_WRITE",
            AppError::ParquetConversion(_) => "PARQUET_CONVERSION",
            AppError::TimeframeConversion(_) => "TIMEFRAME_CONVERSION",
            AppError::CsvParseError { .. } => "CSV_PARSE_ERROR",
            AppError::Database(_) => "DATABASE",
            AppError::NotFound(_) => "NOT_FOUND",
            AppError::InvalidStrategy(_) => "INVALID_STRATEGY",
            AppError::InvalidRule(_) => "INVALID_RULE",
            AppError::StrategyNotFound(_) => "STRATEGY_NOT_FOUND",
            AppError::BacktestExecution(_) => "BACKTEST_EXECUTION",
            AppError::BacktestCancelled => "BACKTEST_CANCELLED",
            AppError::NoDataInRange => "NO_DATA_IN_RANGE",
            AppError::InsufficientData { .. } => "INSUFFICIENT_DATA",
            AppError::InvalidIndicatorParams(_) => "INVALID_INDICATOR_PARAMS",
            AppError::OptimizationError(_) => "OPTIMIZATION_ERROR",
            AppError::OptimizationCancelled => "OPTIMIZATION_CANCELLED",
            AppError::DownloadError(_) => "DOWNLOAD_ERROR",
            AppError::DownloadCancelled => "DOWNLOAD_CANCELLED",
            AppError::TooManyCombinations { .. } => "TOO_MANY_COMBINATIONS",
            AppError::InvalidConfig(_) => "INVALID_CONFIG",
            AppError::Serialization(_) => "SERIALIZATION",
            AppError::Internal(_) => "INTERNAL",
        }
    }

    /// Returns the human message of the error.
    pub fn message(&self) -> (message: String)
        ensures
            message@ == self.message_of(),
    {
        match self {
            AppError::InvalidCsvFormat(m) => prefixed("Invalid CSV format: ", m),
            AppError::CsvValidation(m) => prefixed("CSV validation failed: ", m),
            AppError::UnsupportedFormat(m) => prefixed("Unsupported data format: ", m),
            AppError::FileNotFound(m) => prefixed("File not found: ", m),
            AppError::FileRead(m) => prefixed("Failed to read file: ", m),
            AppError::FileWrite(m) => prefixed("Failed to write file: ", m),
            AppError::ParquetConversion(m) => prefixed("Parquet conversion failed: ", m),
            AppError::TimeframeConversion(m) => prefixed("Timeframe conversion failed: ", m),
            AppError::CsvParseError { row, message } => {
                let mut s = String::from_str("CSV parse error at row ");
                push_decimal(&mut s, *row as u64);
                s.append(": ");
                s.append(message.as_str());
                s
            },
            AppError::Database(m) => prefixed("Database error: ", m),
            AppError::NotFound(m) => prefixed("Record not found: ", m),
            AppError::InvalidStrategy(m) => prefixed("Invalid strategy: ", m),
            AppError::InvalidRule(m) => prefixed("Invalid rule: ", m),
            AppError::StrategyNotFound(m) => prefixed("Strategy not found: ", m),
            AppError::BacktestExecution(m) => prefixed("Backtest execution error: ", m),
            AppError::BacktestCancelled => String::from_str("Backtest cancelled"),
            AppError::NoDataInRange => String::from_str("No data available for the specified date range"),
            AppError::InsufficientData { needed, available } => {
                let mut s = String::from_str("Insufficient data for indicator calculation: need ");
                push_decimal(&mut s, *needed as u64);
                s.append(" bars, got ");
                push_decimal(&mut s, *available as u64);
                s
            },
            AppError::InvalidIndicatorParams(m) => prefixed("Invalid indicator parameters: ", m),
            AppError::OptimizationError(m) => prefixed("Optimization error: ", m),
            AppError::OptimizationCancelled => String::from_str("Optimization cancelled"),
            AppError::DownloadError(m) => prefixed("Download failed: ", m),
            AppError::DownloadCancelled => String::from_str("Download cancelled"),
            AppError::TooManyCombinations { count, limit } => {
                let mut s = String::from_str("Too many combinations: ");
                push_decimal(&mut s, *count as u64);
                s.append(" exceeds limit of ");
                push_decimal(&mut s, *limit as u64);
                s
            },
            AppError::InvalidConfig(m) => prefixed("Invalid configuration: ", m),
            AppError::Serialization(m) => prefixed("Serialization error: ", m),
            AppError::Internal(m) => prefixed("Internal error: ", m),
        }
    }
}

/// `prefix` followed by `detail`.
fn prefixed(prefix: &str, detail: &String) -> (s: String)
    ensures
        s@ == prefix@ + detail@,
{
    let mut s = String::from_str(prefix);
    s.append(detail.as_str());
    s
}

impl ErrorResponse {
    /// The response that stands for `err`.
    pub fn from_error(err: &AppError) -> (r: ErrorResponse)
        ensures
            r.code@ == err.code_of(),
            r.message@ == err.message_of(),
    {
        ErrorResponse { code: String::from_str(err.code()), message: err.message() }
    }
}

impl<'a> From<&'a AppError> for ErrorResponse {
    fn from(err: &'a AppError) -> (r: ErrorResponse) {
        ErrorResponse::from_error(err)
    }
}

impl<'a> vstd::std_specs::convert::FromSpecImpl<&'a AppError> for ErrorResponse {
    /// Nothing is claimed of the conversion through `From`; what the
    /// response holds is the contract of `from_error`.
    open spec fn obeys_from_spec() -> bool {
        false
    }

    open spec fn from_spec(err: &'a AppError) -> ErrorResponse {
        arbitrary()
    }
}

} // verus!
