use sqland::calibrate::probe_payload;
use sqland::calibrate::Calibration;
use sqland::calibrate::CalibrationError;
use sqland::calibrate::Sample;
use sqland::client::SQLand;

fn sample(status: u16, elapsed_ms: u64) -> Sample {
    Sample { status, elapsed_ms }
}

#[test]
fn baseline_is_the_mean_of_the_samples() {
    let samples = vec![sample(200, 100), sample(200, 120), sample(200, 140)];
    assert_eq!(SQLand::calculate_avg_res_time(&samples), Ok(120));
}

#[test]
fn baseline_rounds_down() {
    let samples = vec![sample(200, 1), sample(200, 2)];
    assert_eq!(SQLand::calculate_avg_res_time(&samples), Ok(1));
}

#[test]
fn baseline_without_samples_is_zero() {
    assert_eq!(SQLand::calculate_avg_res_time(&Vec::new()), Ok(0));
}

#[test]
fn baseline_fails_on_status_mismatch() {
    let samples = vec![sample(200, 100), sample(200, 120), sample(500, 140), sample(404, 1)];
    assert_eq!(
        SQLand::calculate_avg_res_time(&samples),
        Err(CalibrationError::StatusMismatch { expected: 200, received: 500 })
    );
}

#[test]
fn baseline_never_overflows() {
    let samples = vec![sample(200, u64::MAX), sample(200, u64::MAX), sample(200, u64::MAX)];
    assert_eq!(SQLand::calculate_avg_res_time(&samples), Ok(u64::MAX as u128));
}

#[test]
fn calibration_takes_the_samples_it_wants() {
    let mut calibration = Calibration::new(3);
    let mut taken = 0;
    for elapsed in [100u64, 120, 140, 1000, 2000] {
        if !calibration.pending() {
            break;
        }
        assert_eq!(calibration.record(sample(200, elapsed)), Ok(()));
        taken += 1;
    }
    assert_eq!(taken, 3);
    assert!(!calibration.pending());
    assert_eq!(calibration.offset(), Ok(120));
}

#[test]
fn calibration_of_zero_samples_is_disabled() {
    let mut calibration = Calibration::new(0);
    assert!(!calibration.pending());
    assert_eq!(calibration.offset(), Ok(0));
    assert_eq!(calibration.record(sample(200, 700)), Ok(()));
    assert_eq!(calibration.offset(), Ok(0));
}

#[test]
fn calibration_stops_at_a_mismatch() {
    let mut calibration = Calibration::new(5);
    assert_eq!(calibration.record(sample(200, 100)), Ok(()));
    let mismatch = CalibrationError::StatusMismatch { expected: 200, received: 302 };
    assert_eq!(calibration.record(sample(302, 100)), Err(mismatch));
    assert!(!calibration.pending());
    assert_eq!(calibration.offset(), Err(mismatch));
    assert_eq!(calibration.record(sample(200, 100)), Err(mismatch));
    assert_eq!(calibration.offset(), Err(mismatch));
}

#[test]
fn calibration_agrees_with_the_batch_baseline() {
    let samples = vec![sample(204, 7), sample(204, 8), sample(204, 10), sample(204, 4)];
    let mut calibration = Calibration::new(4);
    for s in &samples {
        assert_eq!(calibration.record(*s), Ok(()));
    }
    assert_eq!(calibration.offset(), SQLand::calculate_avg_res_time(&samples));
    assert_eq!(calibration.offset(), Ok(7));
}

#[test]
fn probe_payload_is_short_and_alphanumeric() {
    for _ in 0..200 {
        let payload = probe_payload();
        assert!(payload.len() >= 4 && payload.len() < 10);
        assert!(payload.chars().all(|c| c.is_ascii_alphanumeric()));
    }
}
