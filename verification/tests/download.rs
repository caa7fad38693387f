use glimpse_speech::download::{
    can_retry, download_failed, first_swap_step, next_swap_step, retry_delay_ms, temp_file_name,
    Download, EndAction, InterruptAction, ResponseAction, SwapStep,
};

#[test]
fn partial_files_are_continued() {
    let mut d = Download::start(Some(100), false, 40);
    let setup = d.before_request().expect("request");
    assert!(!setup.discard);
    assert_eq!(setup.range_from, Some(40));
    assert_eq!(d.on_response(206, Some(60)), ResponseAction::Receive { append: true });
    assert_eq!(d.total_size, 100);
    d.on_chunk(50);
    assert_eq!(d.on_end(), EndAction::Continue);
    d.on_chunk(10);
    assert_eq!(d.on_end(), EndAction::Finish { replace: false });
}

#[test]
fn refused_ranges_start_over_once() {
    for status in [200, 416] {
        let mut d = Download::start(None, false, 40);
        d.before_request();
        assert_eq!(d.on_response(status, Some(7)), ResponseAction::Restart);
        assert_eq!(d.downloaded, 0);
        assert_eq!(d.before_request().expect("request").range_from, None);
        assert_eq!(d.on_response(200, Some(7)), ResponseAction::Receive { append: false });
        assert_eq!(d.total_size, 7);
    }
}

#[test]
fn existing_files_are_replaced() {
    let mut d = Download::start(Some(5), true, 99);
    assert_eq!(d.downloaded, 0);
    assert_eq!(d.before_request().expect("request").range_from, None);
    assert_eq!(d.on_response(200, None), ResponseAction::Receive { append: false });
    d.on_chunk(3);
    assert_eq!(d.on_interruption(), InterruptAction::Retry { delay_ms: 300 });
    let setup = d.before_request().expect("request");
    assert!(setup.discard);
    assert_eq!(d.downloaded, 0);
    d.on_chunk(5);
    assert_eq!(d.on_end(), EndAction::Finish { replace: true });
}

#[test]
fn server_errors_are_retried_four_times() {
    let mut d = Download::start(None, false, 0);
    for delay_ms in [300, 600, 900, 1200] {
        assert_eq!(d.on_response(503, None), ResponseAction::Retry { delay_ms });
    }
    assert_eq!(d.on_response(429, None), ResponseAction::Fail);
    let mut d = Download::start(None, false, 0);
    assert_eq!(d.on_response(404, None), ResponseAction::Fail);
    for _ in 0..4 {
        d.on_interruption();
    }
    assert_eq!(d.on_interruption(), InterruptAction::Fail);
}

#[test]
fn retries_are_counted() {
    let mut retries = 3;
    assert!(can_retry(&mut retries));
    assert!(!can_retry(&mut retries));
    let mut many = usize::MAX;
    assert!(!can_retry(&mut many));
    assert_eq!(many, usize::MAX);
    assert_eq!(retry_delay_ms(2), 600);
}

#[test]
fn replace_existing_file_restores_target_on_failed_swap() {
    let step = first_swap_step(true);
    assert_eq!(step, SwapStep::BackUp);
    let step = next_swap_step(step, true);
    assert_eq!(step, SwapStep::PlaceOverBackup);
    let step = next_swap_step(step, false);
    assert_eq!(step, SwapStep::Restore);
    assert_eq!(next_swap_step(step, true), SwapStep::Unchanged);
    assert_eq!(next_swap_step(step, false), SwapStep::Lost);
    assert_eq!(next_swap_step(first_swap_step(false), true), SwapStep::Done);
    assert_eq!(next_swap_step(SwapStep::DropBackup, false), SwapStep::Done);
}

#[test]
fn names_and_messages() {
    assert_eq!(temp_file_name("m.bin", "backup", 7, 8, 9), "m.bin.backup-7-8-9");
    assert_eq!(
        download_failed(404, "m.bin"),
        "Download failed with status 404 Not Found while fetching m.bin"
    );
}

#[test]
fn cancelled_downloads_ask_no_more() {
    let mut d = Download::start(Some(100), false, 40);
    assert!(d.before_request().is_some());
    let cancellation = d.on_cancelled();
    assert!(cancellation.discard);
    assert_eq!(cancellation.message, "Download cancelled");
    assert_eq!(d.before_request(), None);
    d.on_interruption();
    d.on_response(200, None);
    assert_eq!(d.before_request(), None);
}
