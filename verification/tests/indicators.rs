use backtest_core::engine::averages::{ema, ema_on_slice, macd, sma, sma_on_slice, wma};
use backtest_core::engine::channels::{
    atr, bar_range, biggest_range, bollinger_bands, fibonacci, fractal, gann_hilo, heiken_ashi,
    highest_in_range, hull_ma, ichimoku, keltner_channel, linear_regression, lowest_in_range,
    parabolic_sar, pivots, smallest_range, std_dev, supertrend, true_range, ulcer_index, vwap,
    whole_root,
};
use backtest_core::engine::indicators::{compute_arrays, compute_indicator, price_columns};
use backtest_core::engine::numeric::{Comparison, Numbers, Relation};
use backtest_core::engine::oscillators::{
    adx, aroon, awesome_oscillator, bears_power, bulls_power, cci, demarker, laguerre_rsi,
    momentum, reflex, roc, rsi, stochastic, vortex, williams_r,
};
use backtest_core::models::candle::Candle;
use backtest_core::models::strategy::{IndicatorConfig, IndicatorParams, IndicatorType};
use backtest_core::timestamp::parse_datetime_to_micros;

struct F64;

impl Numbers<f64> for F64 {
    fn compare(&self, left: f64, right: f64) -> Comparison {
        let relation = if left < right {
            Relation::Less
        } else if left > right {
            Relation::Greater
        } else if left == right {
            Relation::Equal
        } else {
            Relation::Unordered
        };
        Comparison { relation, close: (left - right).abs() < f64::EPSILON }
    }

    fn add(&self, left: f64, right: f64) -> f64 {
        left + right
    }

    fn sub(&self, left: f64, right: f64) -> f64 {
        left - right
    }

    fn mul(&self, left: f64, right: f64) -> f64 {
        left * right
    }

    fn div(&self, left: f64, right: f64) -> f64 {
        left / right
    }

    fn distance(&self, left: f64, right: f64) -> f64 {
        (left - right).abs()
    }

    fn neg(&self, value: f64) -> f64 {
        -value
    }

    fn max(&self, left: f64, right: f64) -> f64 {
        left.max(right)
    }

    fn min(&self, left: f64, right: f64) -> f64 {
        left.min(right)
    }

    fn sqrt(&self, value: f64) -> f64 {
        value.sqrt()
    }

    fn floor(&self, value: f64) -> f64 {
        value.floor()
    }

    fn powf(&self, base: f64, exponent: f64) -> f64 {
        base.powf(exponent)
    }

    fn exp(&self, value: f64) -> f64 {
        value.exp()
    }

    fn cos(&self, value: f64) -> f64 {
        value.cos()
    }

    fn pi(&self) -> f64 {
        std::f64::consts::PI
    }

    fn from_int(&self, value: i64) -> f64 {
        value as f64
    }

    fn ratio(&self, numerator: i64, denominator: i64) -> f64 {
        numerator as f64 / denominator as f64
    }

    fn fixed(&self, value: f64, decimals: u8) -> String {
        format!("{:.*}", decimals as usize, value)
    }

    fn rounded(&self, value: f64) -> u64 {
        value.round() as u64
    }

    fn order_key(&self, value: f64) -> i64 {
        if value.is_nan() {
            return i64::MIN;
        }
        let bits = (value + 0.0).to_bits() as i64;
        bits ^ ((((bits >> 63) as u64) >> 1) as i64)
    }

    fn highest(&self) -> f64 {
        f64::INFINITY
    }

    fn lowest(&self) -> f64 {
        f64::NEG_INFINITY
    }

    fn random_unit(&self) -> f64 {
        0.5
    }
}

fn approx_eq(a: f64, b: f64, epsilon: f64) -> bool {
    if a.is_nan() && b.is_nan() {
        return true;
    }
    (a - b).abs() < epsilon
}

fn assert_approx(actual: f64, expected: f64, epsilon: f64, msg: &str) {
    assert!(approx_eq(actual, expected, epsilon), "{}: expected {}, got {}", msg, expected, actual);
}

/// The entry of a series as a number, an absent entry as no number.
fn at(series: &Vec<Option<f64>>, i: usize) -> f64 {
    series[i].unwrap_or(f64::NAN)
}

fn candle(datetime: &str, open: f64, high: f64, low: f64, close: f64, volume: f64) -> Candle<f64> {
    Candle { timestamp: parse_datetime_to_micros(datetime), datetime: datetime.to_string(), open, high, low, close, volume }
}

fn trending(n: usize) -> Vec<Candle<f64>> {
    (0..n)
        .map(|i| {
            let base = 100.0 + i as f64 + 3.0 * ((i * 7 % 5) as f64);
            candle(&format!("2024-01-{:02} {:02}:00", i / 24 + 1, i % 24), base, base + 2.0, base - 1.5, base + 0.5, 1000.0 + i as f64)
        })
        .collect()
}

#[test]
fn test_sma_basic() {
    let data = vec![1.0, 2.0, 3.0, 4.0, 5.0, 6.0, 7.0, 8.0, 9.0, 10.0];
    let result = sma(&F64, &data, 3);
    assert!(at(&result, 0).is_nan());
    assert!(at(&result, 1).is_nan());
    assert_approx(at(&result, 2), 2.0, 1e-10, "SMA[2]");
    assert_approx(at(&result, 3), 3.0, 1e-10, "SMA[3]");
    assert_approx(at(&result, 9), 9.0, 1e-10, "SMA[9]");
}

#[test]
fn test_ema_basic() {
    let data = vec![22.27, 22.19, 22.08, 22.17, 22.18, 22.13, 22.23, 22.43, 22.24, 22.29];
    let result = ema(&F64, &data, 5);
    assert!(at(&result, 3).is_nan());
    let seed = (22.27 + 22.19 + 22.08 + 22.17 + 22.18) / 5.0;
    assert_approx(at(&result, 4), seed, 1e-10, "EMA seed");
    assert!(!at(&result, 5).is_nan());
    assert_approx(at(&result, 5), (22.13 - seed) * (2.0 / 6.0) + seed, 1e-12, "EMA[5]");
}

#[test]
fn test_rsi_basic() {
    let data = vec![
        44.0, 44.34, 44.09, 43.61, 44.33, 44.83, 45.10, 45.42, 45.84, 46.08, 45.89, 46.03, 45.61, 46.28, 46.28, 46.00,
        46.03, 46.41, 46.22, 45.64,
    ];
    let result = rsi(&F64, &data, 14);
    for i in 0..14 {
        assert!(at(&result, i).is_nan(), "RSI[{}] should be NaN", i);
    }
    assert!(at(&result, 14) > 50.0 && at(&result, 14) < 90.0, "RSI[14] = {} not in expected range", at(&result, 14));
    let rising: Vec<f64> = (0..10).map(|i| i as f64).collect();
    assert_eq!(at(&rsi(&F64, &rising, 3), 5), 100.0);
}

#[test]
fn test_macd_basic() {
    let data: Vec<f64> = (1..=50).map(|i| 100.0 + (i as f64) * 0.5).collect();
    let (macd_line, signal, hist) = macd(&F64, &data, 12, 26, 9);
    assert_eq!(macd_line.len(), 50);
    assert!(at(&macd_line, 25).is_finite());
    assert!(at(&macd_line, 24).is_nan());
    assert!(at(&macd_line, 49) > 0.0, "MACD should be positive in uptrend");
    assert!(at(&signal, 49).is_finite());
    assert!(at(&signal, 32).is_nan() && at(&signal, 33).is_finite());
    if at(&hist, 49).is_finite() && at(&macd_line, 49).is_finite() && at(&signal, 49).is_finite() {
        assert_approx(at(&hist, 49), at(&macd_line, 49) - at(&signal, 49), 1e-10, "Histogram");
    }
}

#[test]
fn test_bollinger_bands_basic() {
    let data = vec![20.0; 20];
    let (upper, middle, lower) = bollinger_bands(&F64, &data, 20, 2.0);
    assert_approx(at(&middle, 19), 20.0, 1e-10, "BB middle");
    assert_approx(at(&upper, 19), 20.0, 1e-10, "BB upper (no volatility)");
    assert_approx(at(&lower, 19), 20.0, 1e-10, "BB lower (no volatility)");
    let (upper, middle, lower) = bollinger_bands(&F64, &vec![1.0, 3.0, 1.0, 3.0], 2, 2.0);
    assert_eq!((at(&upper, 1), at(&middle, 1), at(&lower, 1)), (4.0, 2.0, 0.0));
    assert!(upper[0].is_none() && lower[0].is_none());
}

#[test]
fn test_atr_basic() {
    let high = vec![48.70, 48.72, 48.90, 48.87, 48.82];
    let low = vec![47.79, 48.14, 48.39, 48.37, 48.24];
    let close = vec![48.16, 48.61, 48.75, 48.63, 48.74];
    let result = atr(&F64, &high, &low, &close, 3);
    assert!(at(&result, 0).is_nan());
    assert!(at(&result, 1).is_nan());
    assert!(at(&result, 2).is_finite(), "ATR[2] should be finite");
    assert!(at(&result, 2) > 0.0, "ATR should be positive");
    let first = ((48.70f64 - 47.79) + (48.72f64 - 48.14) + (48.90f64 - 48.39)) / 3.0;
    assert_approx(at(&result, 2), first, 1e-12, "ATR seed");
    assert_approx(at(&result, 3), (first * 2.0 + (48.87 - 48.37)) / 3.0, 1e-12, "ATR[3]");
}

#[test]
fn test_stochastic_basic() {
    let high = vec![130.0, 132.0, 131.0, 133.0, 135.0, 134.0, 136.0, 138.0, 137.0, 139.0];
    let low = vec![126.0, 128.0, 127.0, 129.0, 131.0, 130.0, 132.0, 134.0, 133.0, 135.0];
    let close = vec![128.0, 131.0, 129.0, 132.0, 134.0, 132.0, 135.0, 137.0, 135.0, 138.0];
    let (k, d) = stochastic(&F64, &high, &low, &close, 5, 3);
    assert!(at(&k, 4).is_finite());
    assert!(at(&k, 4) >= 0.0 && at(&k, 4) <= 100.0, "%K should be 0-100");
    assert!(at(&d, 6).is_finite());
    assert!(at(&d, 5).is_nan() && at(&k, 3).is_nan());
    assert_approx(at(&k, 4), (134.0 - 126.0) / 9.0 * 100.0, 1e-10, "%K[4]");
    let flat = vec![5.0; 4];
    assert_eq!(at(&stochastic(&F64, &flat, &flat, &flat, 2, 2).0, 3), 50.0);
}

#[test]
fn test_cci_basic() {
    let high = vec![25.0, 25.5, 26.0, 25.5, 25.0, 26.0, 27.0, 26.5, 26.0, 25.5];
    let low = vec![24.0, 24.5, 25.0, 24.5, 24.0, 25.0, 26.0, 25.5, 25.0, 24.5];
    let close = vec![24.5, 25.0, 25.5, 25.0, 24.5, 25.5, 26.5, 26.0, 25.5, 25.0];
    let result = cci(&F64, &high, &low, &close, 5);
    assert!(at(&result, 3).is_nan());
    assert!(at(&result, 4).is_finite(), "CCI[4] should be finite");
    let flat = vec![5.0; 6];
    assert_eq!(at(&cci(&F64, &flat, &flat, &flat, 3), 4), 0.0);
}

#[test]
fn test_roc_basic() {
    let data = vec![10.0, 11.0, 12.0, 11.0, 13.0];
    let result = roc(&F64, &data, 2);
    assert!(at(&result, 0).is_nan());
    assert!(at(&result, 1).is_nan());
    assert_approx(at(&result, 2), 20.0, 1e-10, "ROC[2]");
    assert_approx(at(&result, 3), 0.0, 1e-10, "ROC[3]");
    assert_approx(at(&result, 4), (13.0 - 12.0) / 12.0 * 100.0, 1e-10, "ROC[4]");
    assert_eq!(roc(&F64, &vec![0.0, 5.0], 1), vec![None, None]);
}

#[test]
fn test_roc_values() {
    let data = vec![100.0, 105.0, 110.0, 108.0, 115.0];
    let result = roc(&F64, &data, 1);
    assert_approx(at(&result, 1), 5.0, 1e-10, "ROC[1]");
    assert_approx(at(&result, 2), 100.0 * (110.0 - 105.0) / 105.0, 1e-10, "ROC[2]");
}

#[test]
fn test_williams_r_basic() {
    let high = vec![130.0, 132.0, 131.0, 133.0, 135.0];
    let low = vec![126.0, 128.0, 127.0, 129.0, 131.0];
    let close = vec![128.0, 131.0, 129.0, 132.0, 134.0];
    let result = williams_r(&F64, &high, &low, &close, 5);
    assert_approx(at(&result, 4), (135.0 - 134.0) / 9.0 * -100.0, 1e-10, "WilliamsR[4]");
    let flat = vec![5.0; 3];
    assert_eq!(at(&williams_r(&F64, &flat, &flat, &flat, 2), 2), -50.0);
}

#[test]
fn test_parabolic_sar_basic() {
    let high = vec![35.0, 35.5, 36.0, 36.5, 37.0, 37.5, 38.0, 37.5, 37.0, 36.5];
    let low = vec![34.0, 34.5, 35.0, 35.5, 36.0, 36.5, 37.0, 36.5, 36.0, 35.5];
    let result = parabolic_sar(&F64, &high, &low, 0.02, 0.20);
    assert_eq!(result.len(), 10);
    assert!(at(&result, 0).is_finite());
    assert!(at(&result, 9).is_finite());
    assert_eq!(at(&result, 0), 34.0);
    assert_approx(at(&result, 1), 34.0, 1e-12, "SAR[1]");
    assert_approx(at(&result, 2), 34.0, 1e-12, "SAR[2]");
    assert_approx(at(&result, 3), 34.0 + 0.06 * (36.0 - 34.0), 1e-12, "SAR[3]");
    assert_eq!(parabolic_sar(&F64, &vec![1.0], &vec![1.0], 0.02, 0.2), vec![None]);
}

#[test]
fn test_adx_basic() {
    let high: Vec<f64> = (0..30).map(|i| 50.0 + i as f64 * 0.5).collect();
    let low: Vec<f64> = (0..30).map(|i| 49.0 + i as f64 * 0.5).collect();
    let close: Vec<f64> = (0..30).map(|i| 49.5 + i as f64 * 0.5).collect();
    let result = adx(&F64, &high, &low, &close, 7);
    assert!(at(&result, 13).is_finite(), "ADX[13] should be finite");
    assert!(at(&result, 12).is_nan());
    assert!(at(&result, 29) > 0.0, "ADX should be positive");
    assert_approx(at(&result, 29), 100.0, 1e-9, "ADX of a steady rise");
}

#[test]
fn test_vwap_basic() {
    let candles = vec![
        candle("2024-01-01 09:00", 100.0, 102.0, 99.0, 101.0, 1000.0),
        candle("2024-01-01 10:00", 101.0, 103.0, 100.0, 102.0, 1500.0),
        candle("2024-01-02 09:00", 102.0, 104.0, 101.0, 103.0, 2000.0),
    ];
    let c = price_columns(&candles);
    let result = vwap(&F64, &c.high, &c.low, &c.close, &c.volume, &c.timestamps);
    let tp0 = (102.0 + 99.0 + 101.0) / 3.0;
    assert_approx(at(&result, 0), tp0, 1e-10, "VWAP[0]");
    let tp1 = (103.0 + 100.0 + 102.0) / 3.0;
    assert_approx(at(&result, 1), (tp0 * 1000.0 + tp1 * 1500.0) / 2500.0, 1e-10, "VWAP[1]");
    let tp2 = (104.0 + 101.0 + 103.0) / 3.0;
    assert_approx(at(&result, 2), tp2, 1e-10, "VWAP[2] (new day reset)");
}

#[test]
fn averages_on_series_with_gaps() {
    let gaps = vec![None, Some(2.0), Some(4.0), None, Some(6.0), Some(8.0), Some(10.0)];
    assert_eq!(sma_on_slice(&F64, &gaps, 2), vec![None, None, Some(3.0), None, None, Some(7.0), Some(9.0)]);
    assert_eq!(wma(&F64, &gaps, 2), vec![None, None, Some(10.0 / 3.0), None, None, Some(22.0 / 3.0), Some(28.0 / 3.0)]);
    let follows = ema_on_slice(&F64, &gaps, 2);
    assert_eq!(follows[..3], [None, None, Some(3.0)]);
    assert_eq!(follows[3], None);
    assert_approx(follows[4].unwrap(), (6.0 - 3.0) * (2.0 / 3.0) + 3.0, 1e-12, "EMA after a gap");
    assert_eq!(ema_on_slice(&F64, &vec![None, Some(1.0), None, Some(2.0)], 2), vec![None; 4]);
    assert_eq!(sma(&F64, &vec![1.0, 2.0], 0), vec![None, None]);
    assert_eq!(sma(&F64, &vec![1.0, 2.0], 3), vec![None, None]);
    assert_eq!(ema(&F64, &Vec::new(), 3), Vec::<Option<f64>>::new());
}

#[test]
fn ranges_and_extremes() {
    let high = vec![5.0, 9.0, 7.0, 8.0];
    let low = vec![4.0, 5.0, 6.5, 2.0];
    let close = vec![4.5, 8.0, 7.0, 3.0];
    assert_eq!(bar_range(&F64, &high, &low), vec![Some(1.0), Some(4.0), Some(0.5), Some(6.0)]);
    assert_eq!(biggest_range(&F64, &high, &low, 2), vec![None, Some(4.0), Some(4.0), Some(6.0)]);
    assert_eq!(smallest_range(&F64, &high, &low, 2), vec![None, Some(1.0), Some(0.5), Some(0.5)]);
    assert_eq!(highest_in_range(&F64, &high, 3), vec![None, None, Some(9.0), Some(9.0)]);
    assert_eq!(lowest_in_range(&F64, &low, 3), vec![None, None, Some(4.0), Some(2.0)]);
    assert_eq!(true_range(&F64, &high, &low, &close), vec![Some(1.0), Some(4.5), Some(1.5), Some(6.0)]);
    assert_eq!(momentum(&F64, &close, 2), vec![None, None, Some(2.5), Some(-5.0)]);
    assert_eq!(std_dev(&F64, &vec![1.0, 3.0, 1.0], 2), vec![None, Some(1.0), Some(1.0)]);
    assert_eq!(at(&aroon(&F64, &high, &low, 2).0, 3), 0.0);
    assert_eq!(at(&aroon(&F64, &high, &low, 2).0, 2), 50.0);
    assert_eq!(at(&aroon(&F64, &high, &low, 2).1, 3), 100.0);
    for n in [0usize, 1, 2, 3, 4, 8, 9, 15, 16, 17, 99, 100, 1 << 40, usize::MAX] {
        let r = whole_root(n) as u128;
        assert!(r * r <= n as u128 && (r + 1) * (r + 1) > n as u128);
    }
}

#[test]
fn named_outputs_carry_their_names() {
    let candles = trending(80);
    let c = price_columns(&candles);
    let levels = fibonacci(&F64, &c.high, &c.low, 5);
    let names: Vec<&str> = levels.iter().map(|l| l.name.as_str()).collect();
    assert_eq!(names, vec!["level_236", "level_382", "level_500", "level_618", "level_786"]);
    let hh = c.high[..5].iter().cloned().fold(f64::MIN, f64::max);
    let ll = c.low[..5].iter().cloned().fold(f64::MAX, f64::min);
    assert_approx(levels[2].values[4].unwrap(), hh - (hh - ll) * 0.5, 1e-12, "50% level");
    assert!(levels[4].values[3].is_none());

    let lines = ichimoku(&F64, &c.high, &c.low, &c.close, 9, 26, 52);
    let names: Vec<&str> = lines.iter().map(|l| l.name.as_str()).collect();
    assert_eq!(names, vec!["tenkan", "kijun", "senkou_a", "senkou_b", "chikou"]);
    assert!(lines[0].values[7].is_none() && lines[0].values[8].is_some());
    assert!(lines[1].values[24].is_none() && lines[1].values[25].is_some());
    assert!(lines[2].values[50].is_none() && lines[2].values[51].is_some());
    assert!(lines[3].values[76].is_none() && lines[3].values[77].is_some());
    assert_eq!(lines[4].values[3], Some(c.close[3]));

    let points = pivots(&F64, &c.high, &c.low, &c.close, &c.timestamps);
    let names: Vec<&str> = points.iter().map(|l| l.name.as_str()).collect();
    assert_eq!(names, vec!["pp", "r1", "r2", "r3", "s1", "s2", "s3"]);
    assert!(points[0].values[23].is_none() && points[0].values[24].is_some());
    let (h, l) = (c.high[..24].iter().cloned().fold(f64::MIN, f64::max), c.low[..24].iter().cloned().fold(f64::MAX, f64::min));
    let pivot = (h + l + c.close[23]) / 3.0;
    assert_approx(points[0].values[30].unwrap(), pivot, 1e-12, "pivot");
    assert_approx(points[1].values[30].unwrap(), 2.0 * pivot - l, 1e-12, "r1");
    assert_approx(points[6].values[30].unwrap(), l - 2.0 * (h - pivot), 1e-12, "s3");
}

#[test]
fn fractals_mark_standout_bars() {
    let high = vec![1.0, 2.0, 5.0, 2.0, 1.0, 1.5, 1.2];
    let low = vec![0.9, 0.8, 0.7, 0.2, 0.6, 0.7, 0.8];
    let (up, down) = fractal(&F64, &high, &low);
    assert_eq!(up, vec![None, None, None, None, Some(5.0), None, None]);
    assert_eq!(down, vec![None, None, None, None, None, Some(0.2), None]);
}

#[test]
fn every_kind_computes_with_its_shape() {
    let candles = trending(120);
    let kinds = [
        (IndicatorType::SMA, 1, 9),
        (IndicatorType::EMA, 1, 9),
        (IndicatorType::RSI, 1, 10),
        (IndicatorType::MACD, 3, 25),
        (IndicatorType::BollingerBands, 3, 9),
        (IndicatorType::ATR, 1, 9),
        (IndicatorType::Stochastic, 2, 13),
        (IndicatorType::ADX, 1, 19),
        (IndicatorType::CCI, 1, 9),
        (IndicatorType::WilliamsR, 1, 9),
        (IndicatorType::ParabolicSAR, 1, 0),
        (IndicatorType::VWAP, 1, 0),
        (IndicatorType::Aroon, 2, 10),
        (IndicatorType::AwesomeOscillator, 1, 33),
        (IndicatorType::BarRange, 1, 0),
        (IndicatorType::BiggestRange, 1, 9),
        (IndicatorType::HighestInRange, 1, 9),
        (IndicatorType::LowestInRange, 1, 9),
        (IndicatorType::SmallestRange, 1, 9),
        (IndicatorType::BearsPower, 1, 9),
        (IndicatorType::BullsPower, 1, 9),
        (IndicatorType::DeMarker, 1, 10),
        (IndicatorType::Fibonacci, 1, 9),
        (IndicatorType::GannHiLo, 1, 9),
        (IndicatorType::HeikenAshi, 2, 0),
        (IndicatorType::Ichimoku, 1, 8),
        (IndicatorType::KeltnerChannel, 3, 9),
        (IndicatorType::LaguerreRSI, 1, 0),
        (IndicatorType::Momentum, 1, 10),
        (IndicatorType::SuperTrend, 1, 9),
        (IndicatorType::TrueRange, 1, 0),
        (IndicatorType::StdDev, 1, 9),
        (IndicatorType::Reflex, 1, 10),
        (IndicatorType::UlcerIndex, 1, 9),
    ];
    for (kind, lines, warm) in kinds {
        let mut params = IndicatorParams::empty();
        params.period = Some(10);
        params.fast_period = Some(if kind == IndicatorType::Ichimoku { 9 } else { 12 });
        params.slow_period = Some(26);
        params.signal_period = Some(if kind == IndicatorType::Ichimoku { 52 } else { 9 });
        params.k_period = Some(14);
        params.d_period = Some(3);
        let config = IndicatorConfig { indicator_type: kind, params, output_field: None };
        let out = compute_indicator(&F64, &config, &candles).unwrap();
        assert_eq!(out.primary.len(), 120, "{:?}", kind);
        assert_eq!(1 + out.secondary.is_some() as usize + out.tertiary.is_some() as usize, lines, "{:?}", kind);
        assert!(out.secondary.iter().chain(out.tertiary.iter()).all(|s| s.len() == 120));
        for (i, value) in out.primary.iter().enumerate() {
            assert_eq!(value.is_some(), i >= warm, "{:?} at {}", kind, i);
            assert!(value.map_or(true, |v| v.is_finite()), "{:?} at {}", kind, i);
        }
        assert_eq!(out.extra.is_some(), kind == IndicatorType::Fibonacci || kind == IndicatorType::Ichimoku);
    }
    for kind in [IndicatorType::ROC, IndicatorType::Vortex, IndicatorType::Fractal, IndicatorType::HullMA, IndicatorType::LinearRegression, IndicatorType::Pivots] {
        let mut params = IndicatorParams::empty();
        params.period = Some(10);
        let config = IndicatorConfig { indicator_type: kind, params, output_field: None };
        let out = compute_arrays(&F64, &config, &candles);
        assert_eq!(out.primary.len(), 120);
        assert!(out.primary[..4].iter().all(|v| v.is_none()) || kind == IndicatorType::Pivots);
        assert!(out.primary[119].is_some() || kind == IndicatorType::Fractal);
    }
}

#[test]
fn indicators_agree_with_direct_formulas() {
    let candles = trending(60);
    let c = price_columns(&candles);
    let n = 7usize;
    let i = 40usize;
    let window = &c.close[i + 1 - n..=i];
    let mean = window.iter().sum::<f64>() / n as f64;
    let sd = (window.iter().map(|v| (v - mean).powi(2)).sum::<f64>() / n as f64).sqrt();
    assert_approx(at(&std_dev(&F64, &c.close, n), i), sd, 1e-12, "standard deviation");
    let (upper, middle, lower) = keltner_channel(&F64, &c.high, &c.low, &c.close, n, 1.5);
    let a = at(&atr(&F64, &c.high, &c.low, &c.close, n), i);
    assert_approx(at(&upper, i) - at(&middle, i), 1.5 * a, 1e-12, "Keltner width");
    assert_approx(at(&middle, i) - at(&lower, i), 1.5 * a, 1e-12, "Keltner width");
    assert_eq!(middle, ema(&F64, &c.close, n));
    let e = at(&ema(&F64, &c.close, n), i);
    assert_approx(at(&bears_power(&F64, &c.low, &c.close, n), i), c.low[i] - e, 1e-12, "bears power");
    assert_approx(at(&bulls_power(&F64, &c.high, &c.close, n), i), c.high[i] - e, 1e-12, "bulls power");
    let mid: Vec<f64> = (0..60).map(|k| (c.high[k] + c.low[k]) / 2.0).collect();
    let ao = at(&sma(&F64, &mid, 5), i) - at(&sma(&F64, &mid, 34), i);
    assert_approx(at(&awesome_oscillator(&F64, &c.high, &c.low), i), ao, 1e-12, "awesome oscillator");
    let (ha_close, ha_open) = heiken_ashi(&F64, &c.open, &c.high, &c.low, &c.close);
    assert_approx(at(&ha_close, 1), (c.open[1] + c.high[1] + c.low[1] + c.close[1]) / 4.0, 1e-12, "HA close");
    assert_approx(at(&ha_open, 1), (at(&ha_open, 0) + at(&ha_close, 0)) / 2.0, 1e-12, "HA open");
    let line: Vec<f64> = (0..20).map(|k| 3.0 + 2.0 * k as f64).collect();
    assert_approx(at(&linear_regression(&F64, &line, 5), 12), line[12], 1e-9, "fit of a line");
    assert_eq!(linear_regression(&F64, &line, 1)[5], None);
    let ui = at(&ulcer_index(&F64, &vec![10.0, 9.0, 10.0], 3), 2);
    assert_approx(ui, (100.0f64 / 3.0).sqrt(), 1e-12, "ulcer index");
    let dm = at(&demarker(&F64, &vec![1.0, 2.0, 3.0], &vec![1.0, 0.5, 0.5], 2), 2);
    assert_approx(dm, 1.0 / (1.0 + 0.25), 1e-12, "DeMarker");
    let lag = laguerre_rsi(&F64, &vec![1.0, 2.0, 3.0], 0.8);
    assert!(lag.iter().all(|v| v.map_or(false, |x| (0.0..=1.0).contains(&x))));
    let (plus, minus) = vortex(&F64, &c.high, &c.low, &c.close, n);
    assert!(at(&plus, i) > 0.0 && at(&minus, i) > 0.0 && plus[n - 1].is_none());
    assert!(at(&reflex(&F64, &c.close, n), i).is_finite());
    assert!(at(&supertrend(&F64, &c.high, &c.low, &c.close, n, 3.0), i).is_finite());
    assert!(at(&gann_hilo(&F64, &c.high, &c.low, &c.close, n), i).is_finite());
    assert!(at(&hull_ma(&F64, &c.close, 9), i).is_finite());
    assert!(hull_ma(&F64, &c.close, 9)[7].is_none());
}

fn true_range_by_hand(h: &[f64], l: &[f64], c: &[f64], i: usize) -> f64 {
    if i == 0 {
        h[0] - l[0]
    } else {
        (h[i] - l[i]).max((h[i] - c[i - 1]).abs()).max((l[i] - c[i - 1]).abs())
    }
}

fn wavy(n: usize) -> (Vec<f64>, Vec<f64>, Vec<f64>) {
    let close: Vec<f64> = (0..n).map(|i| 100.0 + ((i * 7) % 11) as f64 - ((i * 3) % 5) as f64 * 0.5).collect();
    let high: Vec<f64> = (0..n).map(|i| close[i] + 1.0 + (i % 3) as f64 * 0.25).collect();
    let low: Vec<f64> = (0..n).map(|i| close[i] - 1.0 - (i % 4) as f64 * 0.25).collect();
    (high, low, close)
}

#[test]
fn directional_index_agrees_with_its_formula() {
    let (h, l, c) = wavy(40);
    let p = 5usize;
    let n = p as f64;
    let len = h.len();
    let mut tr: Vec<f64> = vec![0.0; len];
    let mut plus: Vec<f64> = vec![0.0; len];
    let mut minus: Vec<f64> = vec![0.0; len];
    for i in 1..len {
        tr[i] = true_range_by_hand(&h, &l, &c, i);
        let up = h[i] - h[i - 1];
        let down = l[i - 1] - l[i];
        if up > down && up > 0.0 {
            plus[i] = up;
        }
        if down > up && down > 0.0 {
            minus[i] = down;
        }
    }
    let mut s_tr: f64 = tr[1..=p].iter().fold(0.0, |a, v| a + v);
    let mut s_plus: f64 = plus[1..=p].iter().fold(0.0, |a, v| a + v);
    let mut s_minus: f64 = minus[1..=p].iter().fold(0.0, |a, v| a + v);
    let mut dx: Vec<f64> = vec![0.0; len];
    for i in p..len {
        if i > p {
            s_tr = s_tr - s_tr / n + tr[i];
            s_plus = s_plus - s_plus / n + plus[i];
            s_minus = s_minus - s_minus / n + minus[i];
        }
        let pdi: f64 = if s_tr == 0.0 { 0.0 } else { 100.0 * s_plus / s_tr };
        let mdi: f64 = if s_tr == 0.0 { 0.0 } else { 100.0 * s_minus / s_tr };
        dx[i] = if pdi + mdi == 0.0 { 0.0 } else { 100.0 * (pdi - mdi).abs() / (pdi + mdi) };
    }
    let start = 2 * p - 1;
    let mut expected: f64 = dx[p..=start].iter().fold(0.0, |a, v| a + v) / n;
    let got = adx(&F64, &h, &l, &c, p);
    assert!(got[start - 1].is_none());
    assert_approx(at(&got, start), expected, 1e-9, "first ADX");
    for i in start + 1..len {
        expected = (expected * (n - 1.0) + dx[i]) / n;
        assert_approx(at(&got, i), expected, 1e-9, "ADX");
    }
    assert!(at(&got, len - 1) > 0.0 && at(&got, len - 1) < 100.0);
}

#[test]
fn vortex_and_aroon_agree_with_their_formulas() {
    let (h, l, c) = wavy(30);
    let p = 6usize;
    let i = 20usize;
    let (plus, minus) = vortex(&F64, &h, &l, &c, p);
    let sum_tr: f64 = (i + 1 - p..=i).fold(0.0, |a, j| a + true_range_by_hand(&h, &l, &c, j));
    let up: f64 = (i + 1 - p..=i).fold(0.0, |a, j| a + (h[j] - l[j - 1]).abs());
    let down: f64 = (i + 1 - p..=i).fold(0.0, |a, j| a + (l[j] - h[j - 1]).abs());
    assert_approx(at(&plus, i), up / sum_tr, 1e-12, "VI+");
    assert_approx(at(&minus, i), down / sum_tr, 1e-12, "VI-");
    assert!(plus[p - 1].is_none() && minus[p - 1].is_none());

    let high = vec![1.0, 5.0, 3.0, 5.0, 2.0, 1.0];
    let low = vec![0.5, 4.0, 0.2, 4.0, 0.2, 0.9];
    let (aroon_up, aroon_down) = aroon(&F64, &high, &low, 4);
    assert!(aroon_up[3].is_none());
    assert_approx(at(&aroon_up, 4), (4.0 - 1.0) / 4.0 * 100.0, 1e-12, "latest of two equal highs");
    assert_approx(at(&aroon_down, 4), 100.0, 1e-12, "latest of two equal lows");
    assert_approx(at(&aroon_up, 5), (4.0 - 2.0) / 4.0 * 100.0, 1e-12, "two bars since the high");
    assert_approx(at(&aroon_down, 5), (4.0 - 1.0) / 4.0 * 100.0, 1e-12, "one bar since the low");
}

#[test]
fn trend_lines_follow_their_rules() {
    let high = vec![2.0, 3.0, 4.0, 5.0];
    let low = vec![1.0, 2.0, 3.0, 4.0];
    let close = vec![1.5, 3.5, 2.0, 1.0];
    let gann = gann_hilo(&F64, &high, &low, &close, 2);
    assert_eq!(gann, vec![None, Some(1.5), Some(3.5), Some(4.5)]);

    let high = vec![10.0, 11.0, 12.0, 11.5, 9.0];
    let low = vec![9.0, 10.0, 11.0, 10.0, 8.0];
    let sar = parabolic_sar(&F64, &high, &low, 0.02, 0.2);
    assert_eq!(sar[0], Some(9.0));
    let first: f64 = 9.0 + 0.02 * (10.0 - 9.0);
    assert_approx(at(&sar, 1), first.min(9.0), 1e-12, "held under the low before");
    let second: f64 = (9.0f64 + 0.04 * (11.0 - 9.0)).min(10.0).min(9.0);
    assert_approx(at(&sar, 2), second, 1e-12, "raised acceleration");
    let third: f64 = (second + 0.06 * (12.0 - second)).min(11.0).min(10.0);
    assert_approx(at(&sar, 3), third, 1e-12, "no new extreme");
    assert_approx(at(&sar, 4), 12.0, 1e-12, "turned: the stop is the extreme point");

    let (h, l, c) = wavy(30);
    let p = 4usize;
    let ranges = atr(&F64, &h, &l, &c, p);
    let line = supertrend(&F64, &h, &l, &c, p, 2.0);
    let mut upper: f64 = 0.0;
    let mut lower: f64 = 0.0;
    let mut on_upper = false;
    for i in p - 1..h.len() {
        let mid = (h[i] + l[i]) / 2.0;
        let width = 2.0 * at(&ranges, i);
        if i == p - 1 {
            upper = mid + width;
            lower = mid - width;
            on_upper = c[i] <= upper;
        } else {
            if mid + width < upper || c[i - 1] > upper {
                upper = mid + width;
            }
            if mid - width > lower || c[i - 1] < lower {
                lower = mid - width;
            }
            if on_upper {
                if c[i] > upper {
                    on_upper = false;
                }
            } else if c[i] < lower {
                on_upper = true;
            }
        }
        assert_approx(at(&line, i), if on_upper { upper } else { lower }, 1e-12, "SuperTrend");
    }
    assert!(line[p - 2].is_none());
}

#[test]
fn filters_agree_with_their_formulas() {
    let close = vec![1.0, 2.0, 4.0, 3.0];
    let g = 0.5;
    let got = laguerre_rsi(&F64, &close, g);
    let (mut l0, mut l1, mut l2, mut l3) = (0.0f64, 0.0f64, 0.0f64, 0.0f64);
    for i in 0..close.len() {
        let (p0, p1, p2) = (l0, l1, l2);
        l0 = (1.0 - g) * close[i] + g * p0;
        l1 = -g * l0 + p0 + g * p1;
        l2 = -g * l1 + p1 + g * p2;
        l3 = -g * l2 + p2 + g * l3;
        let mut cu: f64 = 0.0;
        let mut cd: f64 = 0.0;
        for (a, b) in [(l0, l1), (l1, l2), (l2, l3)] {
            if a >= b {
                cu += a - b;
            } else {
                cd += b - a;
            }
        }
        let expected = if cu + cd != 0.0 { cu / (cu + cd) } else { 0.0 };
        assert_approx(at(&got, i), expected, 1e-12, "Laguerre RSI");
    }
    let series = vec![Some(1.0), Some(2.0), None, Some(4.0), Some(6.0), Some(5.0)];
    let weighted = wma(&F64, &series, 2);
    assert_eq!(weighted[0], None);
    assert_approx(at(&weighted, 1), (1.0 * 1.0 + 2.0 * 2.0) / 3.0, 1e-12, "weights rise toward the end");
    assert_eq!(weighted[2], None);
    assert_eq!(weighted[3], None);
    assert_approx(at(&weighted, 5), (6.0 * 1.0 + 5.0 * 2.0) / 3.0, 1e-12, "weighted mean");
    let signal = ema_on_slice(&F64, &series, 2);
    assert_eq!(signal[0], None);
    assert_approx(at(&signal, 1), 1.5, 1e-12, "seeded with the mean of the first full window");
    assert_eq!(signal[2], None);
    let third = (4.0 - 1.5) * (2.0 / 3.0) + 1.5;
    assert_approx(at(&signal, 3), third, 1e-12, "follows the entries that are present");
    let (_, _, hist) = macd(&F64, &vec![1.0, 2.0, 4.0, 8.0, 16.0, 32.0], 2, 3, 2);
    let fast = ema(&F64, &vec![1.0, 2.0, 4.0, 8.0, 16.0, 32.0], 2);
    let slow = ema(&F64, &vec![1.0, 2.0, 4.0, 8.0, 16.0, 32.0], 3);
    let line: Vec<Option<f64>> = (0..6).map(|i| fast[i].zip(slow[i]).map(|(a, b)| a - b)).collect();
    let sig = ema_on_slice(&F64, &line, 2);
    assert_approx(at(&hist, 5), at(&line, 5) - at(&sig, 5), 1e-12, "histogram");
    assert!(hist[2].is_none() && hist[3].is_some());
}

#[test]
fn reflex_agrees_with_its_formula() {
    let (_, _, c) = wavy(30);
    let p = 5usize;
    let n = p as f64;
    let angle = 2.0f64.sqrt() * std::f64::consts::PI / n;
    let a1 = (-angle).exp();
    let c2 = 2.0 * a1 * angle.cos();
    let c3 = -(a1 * a1);
    let c1 = 1.0 - c2 - c3;
    let mut filt: Vec<f64> = vec![c[0], c[1]];
    for i in 2..c.len() {
        filt.push(c1 * (c[i] + c[i - 1]) / 2.0 + c2 * filt[i - 1] + c3 * filt[i - 2]);
    }
    let got = reflex(&F64, &c, p);
    assert!(got[p - 1].is_none());
    let mut ms: f64 = 0.0;
    for i in p..c.len() {
        let slope = (filt[i - p] - filt[i]) / n;
        let mut sum: f64 = 0.0;
        for j in 1..=p {
            sum += filt[i] + j as f64 * slope - filt[i - j];
        }
        sum /= n;
        ms = 0.04 * sum * sum + 0.96 * ms;
        let expected = if ms > 0.0 { sum / ms.sqrt() } else { 0.0 };
        assert_approx(at(&got, i), expected, 1e-9, "Reflex");
    }
    assert_eq!(reflex(&F64, &vec![1.0, 2.0], 1), vec![None, None]);
}
