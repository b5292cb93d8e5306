use llama_server::error::Failure;
use llama_server::http::{accepted, download, speed, Progress, Transfer, SECOND};
use llama_server::Error;

#[test]
fn first_report_has_nothing() {
    let (transfer, progress) = download(Some(1000));
    assert_eq!(transfer, Transfer { total: 1000, downloaded: 0 });
    assert_eq!(progress, Progress { downloaded: 0, total: 1000, speed: 0 });
}

#[test]
fn unknown_length_is_zero() {
    let (transfer, progress) = download(None);
    assert_eq!(transfer, Transfer { total: 0, downloaded: 0 });
    assert_eq!(progress, Progress { downloaded: 0, total: 0, speed: 0 });
    assert_eq!(progress, Progress::default());
}

#[test]
fn speed_is_bytes_by_seconds() {
    assert_eq!(SECOND, 1_000_000_000);
    assert_eq!(speed(1000, SECOND), 1000);
    assert_eq!(speed(1000, 2 * SECOND), 500);
    assert_eq!(speed(1000, SECOND / 2), 2000);
    assert_eq!(speed(1, 3 * SECOND), 0);
    assert_eq!(speed(10, 3 * SECOND), 3);
    assert_eq!(speed(0, SECOND), 0);
    assert_eq!(speed(1_048_576, 250_000_000), 4_194_304);
    assert_eq!(speed(u64::MAX, SECOND), u64::MAX);
    assert_eq!(speed(u64::MAX, 2 * SECOND), u64::MAX / 2);
    assert_eq!(speed(7, u128::MAX), 0);
}

#[test]
fn speed_in_no_time() {
    assert_eq!(speed(0, 0), 0);
    assert_eq!(speed(1, 0), u64::MAX);
    assert_eq!(speed(u64::MAX, 1), u64::MAX);
    assert_eq!(speed(u64::MAX / 1_000_000_000 + 1, 1), u64::MAX);
    assert_eq!(speed(18_446_744_073, 1), 18_446_744_073_000_000_000);
}

#[test]
fn speed_is_near_the_quotient() {
    for (downloaded, elapsed) in [(5_000_000u64, 1_250_000_000u128), (123_456, 789_000_000)] {
        let quotient = downloaded as f64 / (elapsed as f64 / 1e9);
        let ours = speed(downloaded, elapsed) as f64;
        assert!((ours - quotient).abs() <= 1.0);
    }
}

#[test]
fn downloaded_never_falls_and_ends_at_the_sum() {
    let sizes = [0u64, 16384, 16384, 1, 0, 70000, 12];
    let (mut transfer, first) = download(Some(sizes.iter().sum()));
    let mut last = first.downloaded;
    let mut sum = 0;
    for (i, size) in sizes.iter().enumerate() {
        let progress = transfer.receive(*size, (i as u128 + 1) * SECOND).unwrap();
        sum += size;
        assert!(progress.downloaded >= last);
        assert_eq!(progress.downloaded, sum);
        assert_eq!(progress.total, 102781);
        assert_eq!(progress.speed, sum / (i as u64 + 1));
        assert_eq!(transfer.downloaded, sum);
        last = progress.downloaded;
    }
    assert_eq!(last, 102781);
}

#[test]
fn count_that_does_not_fit_is_not_recorded() {
    let mut transfer = Transfer { total: 0, downloaded: u64::MAX - 5 };
    assert_eq!(transfer.receive(6, SECOND), None);
    assert_eq!(transfer, Transfer { total: 0, downloaded: u64::MAX - 5 });
    assert_eq!(
        transfer.receive(5, SECOND),
        Some(Progress { downloaded: u64::MAX, total: 0, speed: u64::MAX })
    );
    assert_eq!(transfer.receive(1, SECOND), None);
    assert_eq!(
        transfer.receive(0, 2 * SECOND),
        Some(Progress { downloaded: u64::MAX, total: 0, speed: u64::MAX / 2 })
    );
}

#[test]
fn answers_from_200_to_299_are_taken() {
    for status in [200u16, 201, 204, 206, 250, 299] {
        assert_eq!(accepted(status), Ok(()));
    }
    for status in 0..=u16::MAX {
        assert_eq!(accepted(status).is_ok(), (200..300).contains(&status));
    }
}

#[test]
fn other_answers_are_failed_requests() {
    for status in [0u16, 100, 199, 300, 301, 304, 400, 403, 404, 429, 500, 502, 503, 999, u16::MAX] {
        assert_eq!(accepted(status), Err(Failure::Transport));
        assert_eq!(accepted(status).map_err(Error::from), Err(Error::RequestFailed));
    }
}
