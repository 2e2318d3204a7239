use t2macd::config::Config;
use t2macd::config::ConfigError;
use t2macd::config::FileRead;
use t2macd::config::LoadOutcome;
use t2macd::config::parse_config;
use t2macd::config::render_config;
use t2macd::curve::FanCurve;

const DEFAULT_TEXT: &[u8] = b"{\"fan_curve\":\"LINEAR\",\"min_temp\":80,\"max_temp\":100}";

#[test]
fn render_produces_the_canonical_record() {
    let c = Config { fan_curve: FanCurve::Linear, min_temp: 80, max_temp: 100 };
    assert_eq!(render_config(&c), DEFAULT_TEXT.to_vec());
}

#[test]
fn parse_reads_the_canonical_record() {
    let c = parse_config(&DEFAULT_TEXT.to_vec()).unwrap();
    assert_eq!(c, Config { fan_curve: FanCurve::Linear, min_temp: 80, max_temp: 100 });
}

#[test]
fn parse_render_round_trips() {
    for (mn, mx) in [(0u32, 1u32), (80, 100), (1, 4294967295), (500, 501)] {
        let c = Config { fan_curve: FanCurve::Linear, min_temp: mn, max_temp: mx };
        assert_eq!(parse_config(&render_config(&c)), Some(c));
    }
}

#[test]
fn parse_accepts_leading_zeroes() {
    let text = b"{\"fan_curve\":\"LINEAR\",\"min_temp\":080,\"max_temp\":0100}".to_vec();
    let c = parse_config(&text).unwrap();
    assert_eq!(c.min_temp, 80);
    assert_eq!(c.max_temp, 100);
}

#[test]
fn parse_rejects_malformed_records() {
    let cases: &[&[u8]] = &[
        b"",
        b"{}",
        b"not json at all",
        b"{\"fan_curve\":\"LINEAR\",\"min_temp\":80,\"max_temp\":100",
        b"{\"fan_curve\":\"LINEAR\", \"min_temp\":80,\"max_temp\":100}",
        b"{\"fan_curve\":\"CUBIC\",\"min_temp\":80,\"max_temp\":100}",
        b"{\"fan_curve\":\"LINEAR\",\"min_temp\":-80,\"max_temp\":100}",
        b"{\"fan_curve\":\"LINEAR\",\"min_temp\":80,\"max_temp\":100}x",
        b"{\"fan_curve\":\"LINEAR\",\"min_temp\":4294967296,\"max_temp\":100}",
    ];
    for case in cases {
        assert_eq!(parse_config(&case.to_vec()), None);
    }
}

#[test]
fn parse_rejects_inverted_or_empty_window() {
    let inverted = b"{\"fan_curve\":\"LINEAR\",\"min_temp\":100,\"max_temp\":80}".to_vec();
    assert_eq!(parse_config(&inverted), None);
    let empty = b"{\"fan_curve\":\"LINEAR\",\"min_temp\":90,\"max_temp\":90}".to_vec();
    assert_eq!(parse_config(&empty), None);
}

#[test]
fn absent_file_yields_default_and_record_to_persist() {
    match Config::get(FileRead::Missing) {
        Ok(LoadOutcome::DefaultCreated(c, persist)) => {
            assert_eq!(c, Config { fan_curve: FanCurve::Linear, min_temp: 80, max_temp: 100 });
            assert_eq!(persist, DEFAULT_TEXT.to_vec());
        }
        _ => panic!("expected the default to be created"),
    }
}

#[test]
fn absent_file_then_reload_of_persisted_record_round_trips() {
    let persisted = match Config::get(FileRead::Missing) {
        Ok(LoadOutcome::DefaultCreated(_, persist)) => persist,
        _ => panic!("expected the default to be created"),
    };
    match Config::get(FileRead::Content(persisted)) {
        Ok(LoadOutcome::Loaded(c)) => {
            assert_eq!(c, Config { fan_curve: FanCurve::Linear, min_temp: 80, max_temp: 100 });
        }
        _ => panic!("expected the persisted default to load"),
    }
}

#[test]
fn malformed_file_yields_default_and_is_preserved() {
    // the content is handed back untouched by the outcome, so a second load
    // of the same preserved bytes lands in the same place
    for _ in 0..2 {
        match Config::get(FileRead::Content(b"{garbage".to_vec())) {
            Ok(LoadOutcome::DefaultPreserving(c)) => {
                assert_eq!(c, Config { fan_curve: FanCurve::Linear, min_temp: 80, max_temp: 100 });
            }
            _ => panic!("expected the default with the file preserved"),
        }
    }
}

#[test]
fn valid_file_is_loaded_as_written() {
    let text = b"{\"fan_curve\":\"LINEAR\",\"min_temp\":60,\"max_temp\":90}".to_vec();
    match Config::get(FileRead::Content(text)) {
        Ok(LoadOutcome::Loaded(c)) => {
            assert_eq!(c, Config { fan_curve: FanCurve::Linear, min_temp: 60, max_temp: 90 });
        }
        _ => panic!("expected the record to load"),
    }
}

#[test]
fn other_read_failure_is_fatal() {
    match Config::get(FileRead::Failed) {
        Err(e) => assert_eq!(e, ConfigError::IoError),
        Ok(_) => panic!("expected a fatal error"),
    }
}
