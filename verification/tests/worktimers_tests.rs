use worktimers::clock::now;
use worktimers::codec::serialize_intervals;
use worktimers::config::Config;
use worktimers::display::DisplayInterval;
use worktimers::domain::Interval;
use worktimers::duration::{format_duration, Duration};
use worktimers::store::{start_command, start_command_at, stop_command, stop_command_at};
use worktimers::timestamp::{Timestamp, TIMESTAMP_MAX_SECS, TIMESTAMP_MIN_SECS};

fn ts(secs: i64) -> Timestamp {
    Timestamp { secs }
}

#[test]
fn domain_calculates_duation_with_lunch_break() {
    let interval = Interval {
        start: ts(Duration::hours(10).num_seconds()),
        stop: Some(ts(Duration::hours(12).num_seconds())),
    };

    let expected = Duration::seconds(
        Duration::hours(2).num_seconds() - Duration::minutes(30).num_seconds(),
    );

    assert_eq!(
        interval.calculate_duration_with_lunch_break(Some(Duration::minutes(30))),
        expected
    );
}

#[test]
fn domain_calculates_duration() {
    let interval = Interval {
        start: ts(Duration::hours(10).num_seconds()),
        stop: Some(ts(Duration::hours(12).num_seconds())),
    };

    assert_eq!(
        interval.calculate_duration_with_lunch_break(None),
        Duration::hours(2)
    );
}

#[test]
fn domain_calculates_duation_if_interval_is_ongoing() {
    let interval = Interval {
        start: ts(now().secs - Duration::hours(2).num_seconds()),
        stop: None,
    };

    assert_eq!(
        interval.calculate_duration_with_lunch_break(None),
        Duration::hours(2)
    );
}

#[test]
fn domain_does_not_end_intervals_older_then_24h() {
    let input = Interval {
        start: ts(-Duration::days(1).num_seconds()),
        stop: None,
    };

    let result: Result<Interval, String> = input.end_iteration();

    assert_eq!(result, Err("interval_not_from_today".to_string()));
}

#[test]
fn domain_ends_interval() {
    let input = Interval {
        start: ts(now().secs - Duration::hours(1).num_seconds()),
        stop: None,
    };

    let result: Result<Interval, String> = input.end_iteration();

    assert_eq!(
        result,
        Ok(Interval {
            start: input.start,
            stop: Some(now()),
        })
    );
}

#[test]
fn interfaces_prints_intervals() {
    let sample_intervals = vec![
        Interval {
            start: ts(0),
            stop: Some(ts(Duration::hours(2).num_seconds())),
        },
        Interval {
            start: ts(now().secs - Duration::hours(8).num_seconds()),
            stop: None,
        },
    ];

    let rows = DisplayInterval::from_intervals(sample_intervals, Some(Duration::minutes(30)));
    assert_eq!(rows.len(), 2);
}

#[test]
fn main_prints_intervals() {
    let sample_intervals = vec![
        Interval {
            start: ts(0),
            stop: Some(ts(Duration::hours(2).num_seconds())),
        },
        Interval {
            start: ts(now().secs - Duration::hours(8).num_seconds()),
            stop: None,
        },
    ];

    let rows = DisplayInterval::from_intervals(sample_intervals, Some(Duration::minutes(30)));
    assert_eq!(rows.len(), 2);
}

#[test]
fn parses_json_to_config() {
    let data = r#"
        {
            "absolute_persistence_path": "/home/joscha/workingtimes.json",
            "lunch_break_in_mins": 50
        }"#;
    let expected = Config {
        absolute_persistence_path: "/home/joscha/workingtimes.json".to_string(),
        lunch_break_in_mins: 50,
    };

    assert_eq!(Config::parse_into_config(data.to_string()), Some(expected));
}

#[test]
fn creates_display_interval() {
    let interval = Interval {
        start: ts(Duration::hours(10).num_seconds()),
        stop: Some(ts(Duration::hours(12).num_seconds())),
    };
    let expected = DisplayInterval {
        start: "1970-01-01 10:00:00".to_string(),
        stop: "1970-01-01 12:00:00".to_string(),
        duration: "02:00:00".to_string(),
        duration_with_lunch_break: "02:00:00".to_string(),
    };

    let cli_interval = DisplayInterval::from_interval(&interval, None);

    assert_eq!(cli_interval, expected)
}

#[test]
fn main_calculates_duation_with_lunch_break() {
    let interval = Interval {
        start: ts(Duration::hours(10).num_seconds()),
        stop: Some(ts(Duration::hours(12).num_seconds())),
    };

    let expected = Duration::seconds(
        Duration::hours(2).num_seconds() - Duration::minutes(30).num_seconds(),
    );

    assert_eq!(
        interval.calculate_duration_with_lunch_break(Some(Duration::minutes(30))),
        expected
    );
}

#[test]
fn main_calculates_duration() {
    let interval = Interval {
        start: ts(Duration::hours(10).num_seconds()),
        stop: Some(ts(Duration::hours(12).num_seconds())),
    };

    assert_eq!(
        interval.calculate_duration_with_lunch_break(None),
        Duration::hours(2)
    );
}

#[test]
fn main_calculates_duation_if_interval_is_ongoing() {
    let interval = Interval {
        start: ts(now().secs - Duration::hours(2).num_seconds()),
        stop: None,
    };

    assert_eq!(
        interval.calculate_duration_with_lunch_break(None),
        Duration::hours(2)
    );
}

#[test]
fn formats_duration() {
    let duration = Duration::seconds(3661);

    let formatted_duration = format_duration(&duration);
    assert_eq!(formatted_duration, "01:01:01");
}

#[test]
fn main_does_not_end_intervals_older_then_24h() {
    let input = Interval {
        start: ts(-Duration::days(1).num_seconds()),
        stop: None,
    };

    let result: Result<Interval, String> = input.end_iteration();

    assert_eq!(result, Err("interval_not_from_today".to_string()));
}

#[test]
fn main_ends_interval() {
    let input = Interval {
        start: ts(now().secs - Duration::hours(1).num_seconds()),
        stop: None,
    };

    let result: Result<Interval, String> = input.end_iteration();

    assert_eq!(
        result,
        Ok(Interval {
            start: input.start,
            stop: Some(now()),
        })
    );
}

#[test]
fn closed_duration_is_independent_of_clock() {
    let interval = Interval {
        start: ts(1000),
        stop: Some(ts(4600)),
    };
    let d1 = interval.calculate_duration_at(ts(5000));
    let d2 = interval.calculate_duration_at(ts(900_000));
    assert_eq!(d1, Duration::seconds(3600));
    assert_eq!(d2, Duration::seconds(3600));
}

#[test]
fn open_duration_tracks_the_clock() {
    let interval = Interval {
        start: ts(1000),
        stop: None,
    };
    let d1 = interval.calculate_duration_at(ts(1500));
    let d2 = interval.calculate_duration_at(ts(1500 + 77));
    assert_eq!(d1, Duration::seconds(500));
    assert_eq!(d2.num_seconds() - d1.num_seconds(), 77);
}

#[test]
fn lunch_break_longer_than_elapsed_goes_negative() {
    let interval = Interval {
        start: ts(0),
        stop: Some(ts(600)),
    };
    let d = interval.calculate_duration_with_lunch_break(Some(Duration::minutes(30)));
    assert_eq!(d, Duration::seconds(-1200));
}

#[test]
fn formats_duration_with_lunch_break_deducted() {
    let interval = Interval {
        start: ts(0),
        stop: Some(ts(7200)),
    };
    let d = interval.calculate_duration_with_lunch_break(Some(Duration::seconds(1800)));
    assert_eq!(format_duration(&d), "01:30:00");
}

#[test]
fn formats_negative_durations_componentwise() {
    assert_eq!(format_duration(&Duration::seconds(-3661)), "-1:-1:-1");
    assert_eq!(format_duration(&Duration::seconds(-61)), "00:-1:-1");
    assert_eq!(format_duration(&Duration::seconds(0)), "00:00:00");
}

#[test]
fn formats_hours_beyond_a_day_unwrapped() {
    assert_eq!(format_duration(&Duration::seconds(90 * 3600 + 59)), "90:00:59");
}

#[test]
fn round_trips_a_mixed_store() {
    let store = vec![
        Interval {
            start: ts(0),
            stop: Some(ts(7200)),
        },
        Interval {
            start: ts(1_709_164_800),
            stop: Some(ts(1_709_164_800 + 3661)),
        },
        Interval {
            start: ts(1_709_200_000),
            stop: None,
        },
    ];
    let text = serialize_intervals(&store);
    assert_eq!(Interval::parse_intervals(text), Some(store));
}

#[test]
fn round_trips_an_empty_store() {
    let store: Vec<Interval> = Vec::new();
    let text = serialize_intervals(&store);
    assert_eq!(text, "[]");
    assert_eq!(Interval::parse_intervals(text), Some(store));
}

#[test]
fn serializes_the_record_shape() {
    let store = vec![Interval {
        start: ts(1_709_164_800),
        stop: None,
    }];
    let text = serialize_intervals(&store);
    assert_eq!(text, "[{\"start\":\"2024-02-29 00:00:00\",\"stop\":null}]");
}

#[test]
fn parses_a_store_with_spaces_after_colons() {
    let text = "[{\"start\": \"2024-02-29 00:00:00\",\"stop\":null}]".to_string();
    let expected = vec![Interval {
        start: ts(1_709_164_800),
        stop: None,
    }];
    assert_eq!(Interval::parse_intervals(text), Some(expected));
}

#[test]
fn parses_a_pretty_printed_store() {
    let text = "[\n  {\n    \"start\": \"1970-01-01 10:00:00\",\n    \"stop\": \"1970-01-01 12:00:00\"\n  },\n  {\n    \"start\": \"2024-02-29 00:00:00\",\n    \"stop\": null\n  }\n]\n"
        .to_string();
    let expected = vec![
        Interval {
            start: ts(36_000),
            stop: Some(ts(43_200)),
        },
        Interval {
            start: ts(1_709_164_800),
            stop: None,
        },
    ];
    assert_eq!(Interval::parse_intervals(text), Some(expected));
}

#[test]
fn parses_record_fields_in_either_order() {
    let text = "[{\"stop\": null, \"start\": \"2024-02-29 00:00:00\"}]".to_string();
    let expected = vec![Interval {
        start: ts(1_709_164_800),
        stop: None,
    }];
    assert_eq!(Interval::parse_intervals(text), Some(expected));
}

#[test]
fn rejects_texts_that_are_no_store() {
    assert_eq!(Interval::parse_intervals("".to_string()), None);
    assert_eq!(Interval::parse_intervals("garbage".to_string()), None);
    assert_eq!(Interval::parse_intervals("[".to_string()), None);
    assert_eq!(
        Interval::parse_intervals("[{\"start\":\"2024-02-29 00:00:00\",\"stop\":null}".to_string()),
        None
    );
    assert_eq!(
        Interval::parse_intervals("[{\"start\":\"2024-02-30 00:00:00\",\"stop\":null}]".to_string()),
        None
    );
}

#[test]
fn renders_the_timestamp_range_ends() {
    let earliest = Interval {
        start: ts(TIMESTAMP_MIN_SECS),
        stop: Some(ts(TIMESTAMP_MIN_SECS)),
    };
    let latest = Interval {
        start: ts(TIMESTAMP_MAX_SECS),
        stop: Some(ts(TIMESTAMP_MAX_SECS)),
    };
    let early_row = DisplayInterval::from_interval(&earliest, None);
    let late_row = DisplayInterval::from_interval(&latest, None);
    assert_eq!(early_row.start, "0000-01-01 00:00:00");
    assert_eq!(late_row.start, "9999-12-31 23:59:59");
}

#[test]
fn stop_on_an_empty_store_changes_nothing() {
    let mut store: Vec<Interval> = Vec::new();
    let result = stop_command(&mut store);
    assert_eq!(result, Err("no_intervals_found".to_string()));
    assert_eq!(store, Vec::new());
}

#[test]
fn stop_on_a_stale_interval_changes_nothing() {
    let t0 = ts(0);
    let mut store = vec![Interval {
        start: t0,
        stop: None,
    }];
    let before = store.clone();
    let result = stop_command_at(&mut store, ts(86_400 * 10));
    assert_eq!(result, Err("interval_not_from_today".to_string()));
    assert_eq!(store, before);
}

#[test]
fn start_appends_an_open_interval() {
    let mut store = vec![Interval {
        start: ts(0),
        stop: Some(ts(7200)),
    }];
    start_command(&mut store);
    assert_eq!(store.len(), 2);
    assert_eq!(store[1].stop, None);
}

#[test]
fn start_then_stop_closes_the_new_interval() {
    let t0 = ts(1_709_164_800);
    let t1 = ts(1_709_164_800 + 4000);
    let mut store: Vec<Interval> = Vec::new();
    start_command_at(&mut store, t0);
    let result = stop_command_at(&mut store, t1);
    assert_eq!(result, Ok(()));
    assert_eq!(
        store,
        vec![Interval {
            start: t0,
            stop: Some(t1),
        }]
    );
}

#[test]
fn start_then_stop_on_the_same_day_with_the_clock() {
    let mut store: Vec<Interval> = Vec::new();
    start_command(&mut store);
    let opened = store[0].start;
    let result = stop_command(&mut store);
    assert_eq!(result, Ok(()));
    assert_eq!(store[0].start, opened);
    assert!(store[0].stop.is_some());
}

#[test]
fn reads_config_fields_in_either_order() {
    let swapped = "{\"lunch_break_in_mins\": -5, \"absolute_persistence_path\": \"x.json\"}";
    let expected = Config {
        absolute_persistence_path: "x.json".to_string(),
        lunch_break_in_mins: -5,
    };
    assert_eq!(Config::read_config(swapped), Some(expected));
}

#[test]
fn reads_config_path_with_escapes() {
    let data = "{\"absolute_persistence_path\": \"a\\\\b\\\"c\", \"lunch_break_in_mins\": 0}";
    let expected = Config {
        absolute_persistence_path: "a\\b\"c".to_string(),
        lunch_break_in_mins: 0,
    };
    assert_eq!(Config::read_config(data), Some(expected));
}

#[test]
fn rejects_broken_config_texts() {
    assert_eq!(Config::read_config(""), None);
    assert_eq!(Config::read_config("{}"), None);
    assert_eq!(
        Config::read_config("{\"absolute_persistence_path\": \"x.json\"}"),
        None
    );
    assert_eq!(
        Config::read_config(
            "{\"absolute_persistence_path\": \"x\", \"lunch_break_in_mins\": 1e3}"
        ),
        None
    );
    assert_eq!(
        Config::read_config(
            "{\"absolute_persistence_path\": \"x\", \"lunch_break_in_mins\": 99999999999999999999}"
        ),
        None
    );
    assert_eq!(
        Config::read_config(
            "{\"absolute_persistence_path\": \"\\u0041\", \"lunch_break_in_mins\": 1}"
        ),
        None
    );
}
