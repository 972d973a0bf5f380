use frame_dedup::{
    after_extraction, decimal_text, extraction_command, working_directory, DecoderRun, NextStep,
    FRAMES_PER_SECOND,
};

#[test]
fn command_runs_the_decoder_with_rate_and_pattern() {
    let command = extraction_command("video.mp4", "frames", 1);
    assert_eq!(command.program, "ffmpeg");
    assert_eq!(command.arguments, vec!["-i", "video.mp4", "-vf", "fps=1", "frames/frame_%04d.png"]);
}

#[test]
fn command_takes_paths_as_they_are() {
    let command = extraction_command("/data/my clips/a b.mkv", "out/dir", 25);
    assert_eq!(command.program, "ffmpeg");
    assert_eq!(
        command.arguments,
        vec!["-i", "/data/my clips/a b.mkv", "-vf", "fps=25", "out/dir/frame_%04d.png"]
    );
    let bare = extraction_command("", "", 0);
    assert_eq!(bare.arguments, vec!["-i", "", "-vf", "fps=0", "/frame_%04d.png"]);
}

#[test]
fn decimal_text_of_small_and_large_numbers() {
    assert_eq!(decimal_text(0), "0");
    assert_eq!(decimal_text(7), "7");
    assert_eq!(decimal_text(9), "9");
    assert_eq!(decimal_text(10), "10");
    assert_eq!(decimal_text(99), "99");
    assert_eq!(decimal_text(100), "100");
    assert_eq!(decimal_text(1234567890), "1234567890");
    assert_eq!(decimal_text(u32::MAX), "4294967295");
}

#[test]
fn decimal_text_agrees_with_the_standard_formatting() {
    let mut n: u32 = 1;
    for _ in 0..40 {
        assert_eq!(decimal_text(n), n.to_string());
        n = n.wrapping_mul(7).wrapping_add(3);
    }
}

#[test]
fn decoder_that_did_not_start_ends_the_work() {
    assert_eq!(after_extraction(DecoderRun::NotStarted), NextStep::Abort);
}

#[test]
fn failed_decoder_is_reported_and_the_scan_goes_on() {
    assert_eq!(after_extraction(DecoderRun::Failed), NextStep::WarnAndScan);
}

#[test]
fn successful_decoder_is_followed_by_the_scan() {
    assert_eq!(after_extraction(DecoderRun::Succeeded), NextStep::Scan);
}

#[test]
fn fixed_settings_of_the_tool() {
    assert_eq!(working_directory(), "frames");
    assert_eq!(FRAMES_PER_SECOND, 1);
    let command = extraction_command("clip.mov", working_directory(), FRAMES_PER_SECOND);
    assert_eq!(command.arguments[3], "fps=1");
    assert_eq!(command.arguments[4], "frames/frame_%04d.png");
}
