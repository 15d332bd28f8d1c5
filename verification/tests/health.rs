use diabuddy::health::HealthData;

// Blood-sugar values are fixed point, in tenths of a mg/dL: 100.0 mg/dL is
// stored as 1000.

#[test]
fn test_blood_sugar_stats() {
    let mut health_data = HealthData::new();

    // Add test readings
    health_data.add_blood_sugar(1000, chrono::Utc::now().timestamp());
    health_data.add_blood_sugar(1200, chrono::Utc::now().timestamp());
    health_data.add_blood_sugar(1400, chrono::Utc::now().timestamp());

    let stats = health_data.blood_sugar_stats().unwrap();
    assert_eq!(stats.0, 1000); // min
    assert_eq!(stats.1, 1400); // max
    assert_eq!(stats.2, 1200); // avg
}

#[test]
fn test_empty_blood_sugar_stats() {
    let health_data = HealthData::new();
    assert!(health_data.blood_sugar_stats().is_none());
}

#[test]
fn test_empty_average_blood_sugar() {
    let health_data = HealthData::new();
    assert!(health_data.average_blood_sugar().is_none());
}

#[test]
fn test_medication_management() {
    let mut health_data = HealthData::new();

    health_data.add_medication(
        "Insulin".to_string(),
        "10 units".to_string(),
        "Before meals".to_string(),
    );

    assert_eq!(health_data.medications.len(), 1);
    assert_eq!(health_data.medications[0].name, "Insulin");
    assert_eq!(health_data.medications[0].dosage, "10 units");
    assert_eq!(health_data.medications[0].frequency, "Before meals");
}

#[test]
fn test_medication_count_grows_by_one() {
    let mut health_data = HealthData::new();
    assert_eq!(health_data.medications.len(), 0);

    health_data.add_medication(
        "Metformin".to_string(),
        "500mg".to_string(),
        "Twice daily".to_string(),
    );
    assert_eq!(health_data.medications.len(), 1);

    health_data.add_medication(
        "Insulin".to_string(),
        "10 units".to_string(),
        "Before meals".to_string(),
    );
    assert_eq!(health_data.medications.len(), 2);
    // insertion order is kept and earlier records are untouched
    assert_eq!(health_data.medications[0].name, "Metformin");
    assert_eq!(health_data.medications[1].name, "Insulin");
}

#[test]
fn test_blood_sugar_reading_round_trip() {
    let mut health_data = HealthData::new();
    let ts = chrono::Utc::now().timestamp();
    health_data.add_blood_sugar(1185, ts);

    assert_eq!(health_data.blood_sugar_readings.len(), 1);
    assert_eq!(health_data.blood_sugar_readings[0].value_tenths, 1185);
    assert_eq!(health_data.blood_sugar_readings[0].timestamp, ts);
}

#[test]
fn test_stats_unsorted_and_negative_values() {
    let mut health_data = HealthData::new();
    health_data.add_blood_sugar(300, 0);
    health_data.add_blood_sugar(-200, 1);
    health_data.add_blood_sugar(1400, 2);
    health_data.add_blood_sugar(100, 3);

    let stats = health_data.blood_sugar_stats().unwrap();
    assert_eq!(stats.0, -200); // min
    assert_eq!(stats.1, 1400); // max
    assert_eq!(stats.2, 400); // avg = (300 - 200 + 1400 + 100) / 4
}

#[test]
fn test_average_rounds_toward_negative_infinity() {
    let mut health_data = HealthData::new();
    health_data.add_blood_sugar(-5, 0);
    health_data.add_blood_sugar(-6, 1);

    // (-5 + -6) / 2 = -11 / 2, floor = -6
    assert_eq!(health_data.average_blood_sugar().unwrap(), -6);
}

#[test]
fn test_upcoming_appointments() {
    let mut health_data = HealthData::new();
    let now = chrono::Utc::now().timestamp();

    // Add appointments
    health_data.add_appointment(
        now + chrono::Duration::days(1).num_seconds(),
        "Dr. Smith".to_string(),
        "Check-up".to_string(),
    );
    health_data.add_appointment(
        now + chrono::Duration::days(5).num_seconds(),
        "Dr. Johnson".to_string(),
        "Follow-up".to_string(),
    );
    health_data.add_appointment(
        now + chrono::Duration::days(10).num_seconds(),
        "Dr. Brown".to_string(),
        "Annual".to_string(),
    );

    let upcoming = health_data.upcoming_appointments(now, 3);
    assert_eq!(upcoming.len(), 1); // Only the appointment within 3 days
    assert_eq!(upcoming[0].doctor, "Dr. Smith");
}

#[test]
fn test_upcoming_appointments_from_now() {
    let mut health_data = HealthData::new();
    let now = chrono::Utc::now().timestamp();

    health_data.add_appointment(
        now + chrono::Duration::days(1).num_seconds(),
        "Dr. Smith".to_string(),
        "Check-up".to_string(),
    );
    health_data.add_appointment(
        now + chrono::Duration::days(10).num_seconds(),
        "Dr. Brown".to_string(),
        "Annual".to_string(),
    );

    // The clock is captured inside the call, at most moments after `now`:
    // the day-1 appointment is then still within 3 whole days and the day-10
    // appointment far outside them.
    let upcoming = health_data.upcoming_appointments_from_now(3);
    assert_eq!(upcoming.len(), 1);
    assert_eq!(upcoming[0].doctor, "Dr. Smith");
}

#[test]
fn test_upcoming_includes_past_appointments() {
    let mut health_data = HealthData::new();
    let now: i64 = 1_700_000_000;

    health_data.add_appointment(
        now - 10 * 86400,
        "Dr. Smith".to_string(),
        "Check-up".to_string(),
    );
    health_data.add_appointment(
        now + 10 * 86400,
        "Dr. Brown".to_string(),
        "Annual".to_string(),
    );

    // the filter only checks an upper bound, so elapsed appointments stay
    let upcoming = health_data.upcoming_appointments(now, 3);
    assert_eq!(upcoming.len(), 1);
    assert_eq!(upcoming[0].doctor, "Dr. Smith");
}

#[test]
fn test_upcoming_horizon_boundary() {
    let mut health_data = HealthData::new();
    let now: i64 = 1_700_000_000;

    // exactly 3 whole days away: kept
    health_data.add_appointment(now + 3 * 86400, "Dr. Smith".to_string(), "Check-up".to_string());
    // one second short of 4 whole days: still 3 whole days away, kept
    health_data.add_appointment(
        now + 4 * 86400 - 1,
        "Dr. Johnson".to_string(),
        "Follow-up".to_string(),
    );
    // exactly 4 whole days away: excluded
    health_data.add_appointment(now + 4 * 86400, "Dr. Brown".to_string(), "Annual".to_string());

    let upcoming = health_data.upcoming_appointments(now, 3);
    assert_eq!(upcoming.len(), 2);
    assert_eq!(upcoming[0].doctor, "Dr. Smith");
    assert_eq!(upcoming[1].doctor, "Dr. Johnson");
}

#[test]
fn test_appointment_fields_copied_unchanged() {
    let mut health_data = HealthData::new();
    let now: i64 = 1_700_000_000;
    let date = now + 86400;

    health_data.add_appointment(date, "Dr. Smith".to_string(), "Check-up".to_string());

    let upcoming = health_data.upcoming_appointments(now, 3);
    assert_eq!(upcoming.len(), 1);
    assert_eq!(upcoming[0].date, date);
    assert_eq!(upcoming[0].doctor, "Dr. Smith");
    assert_eq!(upcoming[0].appointment_type, "Check-up");
    // the stored collection is untouched
    assert_eq!(health_data.appointments.len(), 1);
}

#[test]
fn test_single_reading_stats() {
    let mut health_data = HealthData::new();
    health_data.add_blood_sugar(955, 0);

    let stats = health_data.blood_sugar_stats().unwrap();
    assert_eq!(stats, (955, 955, 955));
    assert_eq!(health_data.average_blood_sugar().unwrap(), 955);
}

#[test]
fn test_queries_have_no_side_effects() {
    let mut health_data = HealthData::new();
    health_data.add_blood_sugar(1000, 0);
    health_data.add_blood_sugar(1200, 1);

    // repeated calls in any order return the same values
    let first = health_data.blood_sugar_stats();
    let avg = health_data.average_blood_sugar();
    let second = health_data.blood_sugar_stats();
    assert_eq!(first, Some((1000, 1200, 1100)));
    assert_eq!(second, first);
    assert_eq!(avg, Some(1100));
}
