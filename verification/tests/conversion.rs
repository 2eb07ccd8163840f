use mportal::convert::{conversion_paths, encoder_arguments, next_step, Outcome, Phase, Step};

#[test]
fn work_file_goes_to_temp_beside_output() {
    let p = conversion_paths("/out/clip.conv.mp4");
    assert_eq!(p.temp_dir, "/out/temp");
    assert_eq!(p.temp_output, "/out/temp/clip.conv.converting.mp4");
}

#[test]
fn work_file_defaults() {
    let p = conversion_paths("/out/clip");
    assert_eq!(p.temp_output, "/out/temp/clip.converting.mp4");
    let q = conversion_paths("clip.webm");
    assert_eq!(q.temp_dir, "temp");
    assert_eq!(q.temp_output, "temp/clip.converting.webm");
    let r = conversion_paths("/");
    assert_eq!(r.temp_dir, "./temp");
    assert_eq!(r.temp_output, "./temp/.converting.mp4");
}

#[test]
fn encoder_argument_order() {
    let args = encoder_arguments(
        &vec!["-hwaccel".to_string(), "auto".to_string()],
        "/in/a.mov",
        &vec!["-crf".to_string(), "23".to_string()],
        "/out/temp/a.conv.converting.mp4",
    );
    assert_eq!(
        args,
        vec![
            "-hwaccel", "auto", "-i", "/in/a.mov", "-crf", "23", "-loglevel", "warning", "-y",
            "/out/temp/a.conv.converting.mp4"
        ]
    );
    let bare = encoder_arguments(&vec![], "in", &vec![], "tmp");
    assert_eq!(bare, vec!["-i", "in", "-loglevel", "warning", "-y", "tmp"]);
}

#[test]
fn successful_conversion_is_moved() {
    assert_eq!(
        next_step(Phase::Encoding, Outcome::EncoderExited { success: true }),
        (Phase::Moving, Step::Rename)
    );
    assert_eq!(next_step(Phase::Moving, Outcome::Renamed { ok: true }), (Phase::Finished, Step::ReportDone));
}

#[test]
fn failed_rename_falls_back_to_copy() {
    assert_eq!(next_step(Phase::Moving, Outcome::Renamed { ok: false }), (Phase::Copying, Step::Copy));
    assert_eq!(
        next_step(Phase::Copying, Outcome::Copied { ok: true }),
        (Phase::Finished, Step::RemoveWorkFileAndReportDone)
    );
    assert_eq!(next_step(Phase::Copying, Outcome::Copied { ok: false }), (Phase::Finished, Step::GiveUp));
}

#[test]
fn encoder_failures_discard_work_file() {
    assert_eq!(
        next_step(Phase::Encoding, Outcome::EncoderExited { success: false }),
        (Phase::Finished, Step::RemoveWorkFile)
    );
    assert_eq!(next_step(Phase::Encoding, Outcome::EncoderNotStarted), (Phase::Finished, Step::RemoveWorkFile));
}

#[test]
fn finished_and_mismatched_reports_do_nothing() {
    for o in [
        Outcome::EncoderExited { success: true },
        Outcome::EncoderNotStarted,
        Outcome::Renamed { ok: true },
        Outcome::Copied { ok: false },
    ] {
        assert_eq!(next_step(Phase::Finished, o), (Phase::Finished, Step::Nothing));
    }
    assert_eq!(next_step(Phase::Encoding, Outcome::Renamed { ok: true }), (Phase::Encoding, Step::Nothing));
    assert_eq!(next_step(Phase::Moving, Outcome::Copied { ok: true }), (Phase::Moving, Step::Nothing));
}

#[test]
fn a_run_reports_done_once() {
    let mut phase = Phase::Encoding;
    let mut done = 0;
    for o in [
        Outcome::EncoderExited { success: true },
        Outcome::Renamed { ok: false },
        Outcome::Copied { ok: true },
        Outcome::Copied { ok: true },
        Outcome::Renamed { ok: true },
    ] {
        let (p, s) = next_step(phase, o);
        if s == Step::ReportDone || s == Step::RemoveWorkFileAndReportDone {
            done += 1;
        }
        phase = p;
    }
    assert_eq!(done, 1);
    assert_eq!(phase, Phase::Finished);
}

#[test]
fn work_folder_comes_first() {
    assert_eq!(
        next_step(Phase::Preparing, Outcome::WorkFolderReady { ok: true }),
        (Phase::Encoding, Step::RunEncoder)
    );
    assert_eq!(
        next_step(Phase::Preparing, Outcome::WorkFolderReady { ok: false }),
        (Phase::Finished, Step::Abandon)
    );
    assert_eq!(
        next_step(Phase::Preparing, Outcome::EncoderExited { success: true }),
        (Phase::Preparing, Step::Nothing)
    );
    assert_eq!(
        next_step(Phase::Encoding, Outcome::WorkFolderReady { ok: true }),
        (Phase::Encoding, Step::Nothing)
    );
}
