use chrono::{DateTime, Utc};
use rusty_bvg::api::{wanted, RawEntry};
use rusty_bvg::departure::Departure;
use rusty_bvg::destination::{clean_destination, strip_marker, strip_noise};
use rusty_bvg::lines::{
    is_bus_line, is_excluded_line, is_long_distance_line, is_ring_line_code,
};
use rusty_bvg::ranking::sort_by_minutes;
use rusty_bvg::timestamp::Timestamp;

#[test]
fn test_departure_time_calculation() {
    // Test time parsing logic
    let now = Utc::now();
    let future = now + chrono::Duration::minutes(5);
    let future_str = future.to_rfc3339();

    let parsed = DateTime::parse_from_rfc3339(&future_str);
    assert!(parsed.is_ok());
    assert!(Timestamp::parse(&future_str).is_some());
}

#[test]
fn test_departure_creation() {
    let dep = Departure::new("S3", "Erkner", 5);
    assert_eq!(dep.line, "S3");
    assert_eq!(dep.destination, "Erkner");
    assert_eq!(dep.minutes, 5);
}

#[test]
fn test_departure_format() {
    let dep = Departure::new("S3", "Erkner", 5);
    assert_eq!(dep.format(), "S3 Erkner 5 min");
}

#[test]
fn test_departure_sorting() {
    let mut departures = vec![
        Departure::new("S3", "Erkner", 10),
        Departure::new("U1", "Warschauer Str.", 2),
        Departure::new("S5", "Strausberg", 5),
    ];

    sort_by_minutes(&mut departures);

    assert_eq!(departures[0].minutes, 2);
    assert_eq!(departures[1].minutes, 5);
    assert_eq!(departures[2].minutes, 10);
}

#[test]
fn test_time_calculation() {
    let now = Utc::now();
    let future = now + chrono::Duration::minutes(5);
    let future_str = future.to_rfc3339();

    let parsed = DateTime::parse_from_rfc3339(&future_str);
    assert!(parsed.is_ok());

    if let Ok(departure_time) = parsed {
        let departure_utc = departure_time.with_timezone(&Utc);
        let diff = departure_utc.signed_duration_since(now);
        let minutes = diff.num_minutes();

        assert!(minutes >= 4 && minutes <= 6); // Allow 1 minute tolerance

        let seen_from = Timestamp { secs: now.timestamp(), nanos: now.timestamp_subsec_nanos() };
        let when = Timestamp::parse(&future_str).unwrap();
        assert_eq!(seen_from.minutes_until(&when), minutes);
        assert_eq!(seen_from.minutes_in_window(&when, 15), Some(minutes as u32));
    }
}

#[test]
fn test_departure_format_truncated() {
    let dep = Departure::new("S5", "Strausberg Nord", 8);
    let truncated = dep.format_truncated(15);
    assert!(truncated.len() <= 15);
    assert!(truncated.starts_with("S5 "));
    assert_eq!(truncated, "S5 Straus 8 min");
}

#[test]
fn test_destination_cleaning_berlin_suffix() {
    // Test removing " (Berlin)" suffix
    let mut destination = "Springpfuhl (Berlin)".to_string();
    destination = destination.replace(" (Berlin)", "");
    assert_eq!(destination, "Springpfuhl");
    assert_eq!(strip_noise("Springpfuhl (Berlin)"), "Springpfuhl");
    assert_eq!(clean_destination("Springpfuhl (Berlin)"), "Springpfuhl");
}

#[test]
fn test_destination_cleaning_s_prefix() {
    // Test removing "S " prefix
    let mut destination = "S Erkner Bhf".to_string();
    if destination.starts_with("S ") {
        destination = destination[2..].to_string();
    }
    assert_eq!(destination, "Erkner Bhf");
    assert_eq!(strip_marker("S Erkner Bhf"), "Erkner Bhf");
}

#[test]
fn test_destination_cleaning_u_prefix() {
    // Test removing "U " prefix
    let mut destination = "U Berliner Str.".to_string();
    if destination.starts_with("U ") {
        destination = destination[2..].to_string();
    }
    assert_eq!(destination, "Berliner Str.");
    assert_eq!(strip_marker("U Berliner Str."), "Berliner Str.");
    assert_eq!(clean_destination("U Berliner Str."), "Berliner Str.");
}

#[test]
fn test_destination_cleaning_bhf_suffix() {
    // Test removing " Bhf" suffix
    let mut destination = "Potsdam Hauptbahnhof Bhf".to_string();
    destination = destination.replace(" Bhf", "");
    assert_eq!(destination, "Potsdam Hauptbahnhof");
    assert_eq!(strip_noise("Potsdam Hauptbahnhof Bhf"), "Potsdam Hauptbahnhof");
    assert_eq!(clean_destination("Potsdam Hauptbahnhof Bhf"), "Potsdam Hauptbahnhof");
}

#[test]
fn test_destination_cleaning_combined() {
    // Test all cleaning rules combined
    let mut destination = "S Spandau Bhf (Berlin)".to_string();

    destination = destination.replace(" (Berlin)", "");
    if destination.starts_with("S ") {
        destination = destination[2..].to_string();
    }
    destination = destination.replace(" Bhf", "");

    assert_eq!(destination, "Spandau");
    assert_eq!(clean_destination("S Spandau Bhf (Berlin)"), "Spandau");
}

#[test]
fn test_destination_cleaning_ringbahn_symbols() {
    // Test removing Ringbahn direction symbols
    let mut destination1 = "Ringbahn S42 âŸ²".to_string();
    let mut destination2 = "Ringbahn S41 âŸ³".to_string();

    destination1 = destination1.replace(" âŸ²", "");
    destination2 = destination2.replace(" âŸ³", "");

    assert_eq!(destination1, "Ringbahn S42");
    assert_eq!(destination2, "Ringbahn S41");

    assert_eq!(clean_destination("Ringbahn S42 \u{27F2}"), "Ringbahn S42");
    assert_eq!(clean_destination("Ringbahn S41 \u{27F3}"), "Ringbahn S41");
}

#[test]
fn test_line_filtering_regional_trains() {
    // Test that regional trains are filtered out
    let regional_trains = vec!["RE2", "RB24", "IC", "ICE", "EC", "EN", "FEX"];

    for line in regional_trains {
        let should_filter = line.starts_with("RE")
            || line.starts_with("RB")
            || line.starts_with("IC")
            || line.starts_with("EC")
            || line.starts_with("EN")
            || line.starts_with("FEX")
            || line.starts_with("ICE");
        assert!(should_filter, "Line {} should be filtered", line);
        assert!(is_long_distance_line(line), "Line {} should be filtered", line);
        assert!(is_excluded_line(line), "Line {} should be filtered", line);
    }
}

#[test]
fn test_line_filtering_ringbahn() {
    // Test that Ringbahn lines are filtered out
    let ringbahn_lines = vec!["S41", "S42"];

    for line in ringbahn_lines {
        let should_filter = line == "S41" || line == "S42";
        assert!(should_filter, "Line {} (Ringbahn) should be filtered", line);
        assert!(is_ring_line_code(line), "Line {} (Ringbahn) should be filtered", line);
        assert!(is_excluded_line(line), "Line {} (Ringbahn) should be filtered", line);
    }
}

#[test]
fn test_line_filtering_buses() {
    // Test that buses (pure numbers) are filtered out
    let bus_lines = vec!["100", "200", "347", "42"];

    for line in bus_lines {
        let should_filter = line.chars().all(|c| c.is_numeric());
        assert!(should_filter, "Line {} (bus) should be filtered", line);
        assert!(is_bus_line(line), "Line {} (bus) should be filtered", line);
        assert!(is_excluded_line(line), "Line {} (bus) should be filtered", line);
    }
}

#[test]
fn test_line_filtering_keep_local_transport() {
    // Test that S-Bahn, U-Bahn, and Trams are NOT filtered
    let local_lines = vec!["S3", "S7", "S5", "U1", "U3", "M10", "M43"];

    for line in local_lines {
        let should_filter = line.starts_with("RE")
            || line.starts_with("RB")
            || line.starts_with("IC")
            || line.starts_with("EC")
            || line.starts_with("EN")
            || line.starts_with("FEX")
            || line.starts_with("ICE")
            || line == "S41"
            || line == "S42"
            || line.chars().all(|c| c.is_numeric());
        assert!(!should_filter, "Line {} should NOT be filtered", line);
        assert!(!is_excluded_line(line), "Line {} should NOT be filtered", line);
    }
}

#[test]
fn test_time_filtering_minimum_one_minute() {
    // Test that departures must be at least 1 minute away
    let minutes_0 = 0;
    let minutes_1 = 1;
    let minutes_60 = 60;
    let minutes_61 = 61;

    assert!(!(minutes_0 >= 1 && minutes_0 <= 60), "0 min should be filtered");
    assert!(minutes_1 >= 1 && minutes_1 <= 60, "1 min should be included");
    assert!(minutes_60 >= 1 && minutes_60 <= 60, "60 min should be included");
    assert!(!(minutes_61 >= 1 && minutes_61 <= 60), "61 min should be filtered");

    let now = Timestamp { secs: 1_704_067_200, nanos: 0 };
    let in_minutes = |minutes: i64| Timestamp { secs: 1_704_067_200 + 60 * minutes, nanos: 0 };
    assert_eq!(
        now.minutes_in_window(&in_minutes(minutes_0), 60),
        None,
        "0 min should be filtered"
    );
    assert_eq!(
        now.minutes_in_window(&in_minutes(minutes_1), 60),
        Some(1),
        "1 min should be included"
    );
    assert_eq!(
        now.minutes_in_window(&in_minutes(minutes_60), 60),
        Some(60),
        "60 min should be included"
    );
    assert_eq!(
        now.minutes_in_window(&in_minutes(minutes_61), 60),
        None,
        "61 min should be filtered"
    );
}

#[test]
fn test_destination_filtering_current_station() {
    // Test that departures TO Warschauer Str. are filtered (we're already there!)
    let destinations = vec![
        ("S+U Warschauer Str.", true),
        ("S+U Warschauer Str. (Berlin)", true),
        ("Erkner", false),
        ("Potsdam Hauptbahnhof", false),
    ];

    for (dest, should_filter) in destinations {
        let is_warschauer = dest.contains("Warschauer");
        assert_eq!(
            is_warschauer, should_filter,
            "Destination '{}' filtering should be {}",
            dest, should_filter
        );
        assert_eq!(
            !wanted("S3", dest, "Warschauer"),
            should_filter,
            "Destination '{}' filtering should be {}",
            dest,
            should_filter
        );
    }
    let entry = RawEntry {
        line_code: "S3".to_string(),
        direction: Some("S+U Warschauer Str.".to_string()),
        when: Some("2024-01-01T00:05:00Z".to_string()),
        delay: None,
    };
    let now = Timestamp { secs: 1_704_067_200, nanos: 0 };
    assert_eq!(rusty_bvg::api::normalize_entry(&entry, "Warschauer", 15, &now), None);
}
