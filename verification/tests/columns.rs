use backtest_core::columns::{
    candles_from_dataframe, fill_missing, filter_dataframe_by_date, sub_bar_source,
    tick_columns_from_dataframe,
    timestamps_from_integers, timestamps_from_text, to_micros, OhlcvColumns, SubBarSource,
    TimeUnit,
};
use backtest_core::engine::executor::{filter_candles_by_date, text_le};
use backtest_core::engine::strategy::weekday;
use backtest_core::errors::AppError;
use backtest_core::models::candle::Candle;
use backtest_core::models::strategy::BacktestPrecision;

#[test]
fn units_convert_to_microseconds() {
    assert_eq!(to_micros(1_700_000_000_123, TimeUnit::Milliseconds), 1_700_000_000_123_000);
    assert_eq!(to_micros(1_700_000_000_123_456, TimeUnit::Microseconds), 1_700_000_000_123_456);
    assert_eq!(to_micros(1_700_000_000_123_456_789, TimeUnit::Nanoseconds), 1_700_000_000_123_456);
    assert_eq!(to_micros(-1_500, TimeUnit::Nanoseconds), -1);
    assert_eq!(to_micros(-999, TimeUnit::Nanoseconds), 0);
    assert_eq!(to_micros(i64::MIN, TimeUnit::Nanoseconds), i64::MIN / 1000);
    assert_eq!(to_micros(i64::MAX, TimeUnit::Milliseconds), i64::MAX);
    assert_eq!(to_micros(i64::MIN, TimeUnit::Milliseconds), i64::MIN);
    assert_eq!(to_micros(-7, TimeUnit::Milliseconds), -7_000);
}

#[test]
fn missing_entries_count_as_zero() {
    assert_eq!(fill_missing(&vec![Some(1.5), None, Some(-2.0)], 0.0), vec![1.5, 0.0, -2.0]);
    assert_eq!(
        timestamps_from_integers(&vec![Some(2), None, Some(-3)], TimeUnit::Milliseconds),
        vec![2_000, 0, -3_000]
    );
    assert_eq!(
        timestamps_from_text(&vec!["1970-01-01 00:00:01".to_string(), "soon".to_string(), "1970-01-02 00:00".to_string()]),
        vec![1_000_000, 0, 86_400_000_000]
    );
}

fn table(rows: usize) -> OhlcvColumns<f64> {
    OhlcvColumns {
        timestamps: (0..rows as i64).collect(),
        datetimes: (0..rows).map(|i| format!("2024-01-{:02} 00:00", i + 1)).collect(),
        open: (0..rows).map(|i| i as f64).collect(),
        high: (0..rows).map(|i| i as f64 + 2.0).collect(),
        low: (0..rows).map(|i| i as f64 - 1.0).collect(),
        close: (0..rows).map(|i| i as f64 + 1.0).collect(),
        volume: vec![10.0; rows],
    }
}

#[test]
fn rows_become_candles() {
    let candles = candles_from_dataframe(&table(3)).unwrap();
    assert_eq!(candles.len(), 3);
    assert_eq!(candles[2].timestamp, 2);
    assert_eq!(candles[2].datetime, "2024-01-03 00:00");
    assert_eq!((candles[2].open, candles[2].high, candles[2].low, candles[2].close, candles[2].volume), (2.0, 4.0, 1.0, 3.0, 10.0));
    assert!(candles_from_dataframe(&table(0)).unwrap().is_empty());
    let mut ragged = table(3);
    ragged.low.pop();
    match candles_from_dataframe(&ragged) {
        Err(AppError::CsvValidation(m)) => assert_eq!(m, "Columns differ in length"),
        _ => panic!("ragged columns must be refused"),
    }
    let ticks = tick_columns_from_dataframe(vec![1, 2], vec![1.0, 1.1], vec![1.2, 1.3]).unwrap();
    assert_eq!(ticks.len(), 2);
    assert_eq!(ticks.asks, vec![1.2, 1.3]);
    assert!(matches!(tick_columns_from_dataframe(vec![1, 2], vec![1.0], vec![1.2, 1.3]), Err(AppError::CsvValidation(_))));
}

#[test]
fn precision_names_its_source() {
    assert_eq!(sub_bar_source(BacktestPrecision::SelectedTfOnly), SubBarSource::Absent);
    assert_eq!(sub_bar_source(BacktestPrecision::M1TickSimulation), SubBarSource::MinuteCandles);
    assert_eq!(sub_bar_source(BacktestPrecision::RealTickCustomSpread).key(), Some("tick"));
    assert_eq!(sub_bar_source(BacktestPrecision::RealTickRealSpread).key(), Some("tick_raw"));
    assert_eq!(SubBarSource::MinuteCandles.key(), Some("m1"));
    assert_eq!(SubBarSource::Absent.key(), None);
}

#[test]
fn date_filter_compares_text() {
    let candles: Vec<Candle<f64>> = candles_from_dataframe(&table(5)).unwrap();
    let times = |kept: Vec<Candle<f64>>| -> Vec<String> { kept.into_iter().map(|c| c.datetime).collect() };
    assert_eq!(filter_candles_by_date(&candles, "", "").len(), 5);
    assert_eq!(
        times(filter_candles_by_date(&candles, "2024-01-02", "2024-01-04")),
        vec!["2024-01-02 00:00", "2024-01-03 00:00"]
    );
    assert_eq!(times(filter_candles_by_date(&candles, "2024-01-05 00:00", "")), vec!["2024-01-05 00:00"]);
    assert_eq!(times(filter_candles_by_date(&candles, "", "2024-01-01 00:00")), vec!["2024-01-01 00:00"]);
    assert!(filter_candles_by_date(&candles, "2025", "").is_empty());
    for (a, b) in [("", ""), ("", "a"), ("a", ""), ("abc", "abd"), ("abd", "abc"), ("ab", "abc"), ("abc", "ab"), ("é", "z"), ("z", "é")] {
        assert_eq!(text_le(a, b), a <= b, "{:?} against {:?}", a, b);
    }
}

#[test]
fn table_filter_keeps_whole_rows() {
    let all = filter_dataframe_by_date(&table(5), "", "").unwrap();
    assert_eq!(all.timestamps, vec![0, 1, 2, 3, 4]);
    let some = filter_dataframe_by_date(&table(5), "2024-01-02", "2024-01-04").unwrap();
    assert_eq!(some.timestamps, vec![1, 2]);
    assert_eq!(some.datetimes, vec!["2024-01-02 00:00", "2024-01-03 00:00"]);
    assert_eq!((some.open.clone(), some.high.clone(), some.low.clone()), (vec![1.0, 2.0], vec![3.0, 4.0], vec![0.0, 1.0]));
    assert_eq!((some.close.clone(), some.volume.clone()), (vec![2.0, 3.0], vec![10.0, 10.0]));
    assert!(filter_dataframe_by_date(&table(5), "2025", "").unwrap().timestamps.is_empty());
    let mut ragged = table(3);
    ragged.volume.pop();
    assert!(matches!(filter_dataframe_by_date(&ragged, "", ""), Err(AppError::CsvValidation(_))));
}

#[test]
fn weekdays_count_from_thursday() {
    assert_eq!(weekday(0), 4);
    assert_eq!(weekday(3), 0);
    assert_eq!(weekday(-1), 3);
    assert_eq!(weekday(-4), 0);
    assert_eq!(weekday(-5), 6);
    assert_eq!(weekday(19_797), 5);
    for day in -30..30 {
        assert_eq!(weekday(day) as i64, (day + 4).rem_euclid(7));
    }
}
