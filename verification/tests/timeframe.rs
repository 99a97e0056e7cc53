use backtest_core::models::config::Timeframe;

#[test]
fn timeframe_minutes_and_names() {
    assert_eq!(Timeframe::Tick.minutes(), 0);
    assert_eq!(Timeframe::D1.minutes(), 1440);
    assert_eq!(Timeframe::H4.as_str(), "h4");
    assert_eq!(Timeframe::M15.polars_duration(), "15m");
}

#[test]
fn higher_timeframes_are_strictly_wider() {
    assert_eq!(
        Timeframe::M30.higher_timeframes(),
        vec![Timeframe::H1, Timeframe::H4, Timeframe::D1]
    );
    assert_eq!(Timeframe::D1.higher_timeframes(), Vec::<Timeframe>::new());
    assert_eq!(Timeframe::Tick.higher_timeframes().len(), 7);
}
