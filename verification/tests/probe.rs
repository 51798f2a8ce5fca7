use url_relay::ffmpeg::{ProbeError, VideoStats};
use url_relay::yt_dlp::{
    begin, file_action, finish, send_video, upload_failure, DownloadAction, DownloadEvent,
    FileAction, StartFate,
};

const REPORT: &str = "Input #0, mov,mp4,m4a,3gp,3g2,mj2, from 'video.mp4':\n  Metadata:\n    major_brand     : isom\n  Duration: 00:01:23.45, start: 0.000000, bitrate: 1205 kb/s\n  Stream #0:0[0x1](und): Video: h264 (High) (avc1 / 0x31637661), yuv420p(progressive), 1280x720 [SAR 1:1 DAR 16:9], 1071 kb/s, 30 fps\n  Stream #0:1[0x2](und): Audio: aac (LC), 44100 Hz, stereo\n";

#[test]
fn reads_duration_and_size() {
    assert_eq!(VideoStats::load(REPORT), Ok(VideoStats { height: 720, width: 1280, duration: 83 }));
}

#[test]
fn duration_is_hours_minutes_seconds() {
    let stats = VideoStats::load("Duration: 12:34:56.78, 1x2 [").unwrap();
    assert_eq!(stats.duration, (12 * 60 + 34) * 60 + 56);
    assert_eq!((stats.width, stats.height), (1, 2));
    let stats = VideoStats::load("Duration: 99:99:99., 4294967295x0 [").unwrap();
    assert_eq!(stats.duration, 362_439);
    assert_eq!((stats.width, stats.height), (u32::MAX, 0));
}

#[test]
fn first_of_each_is_taken() {
    let stats = VideoStats::load(", 3x4 [ Duration: 00:00:01. Duration: 00:00:02. , 5x6 [").unwrap();
    assert_eq!(stats, VideoStats { height: 4, width: 3, duration: 1 });
}

#[test]
fn report_without_duration() {
    assert_eq!(VideoStats::load(""), Err(ProbeError::NoDuration));
    assert_eq!(VideoStats::load("Duration: N/A, 1x2 ["), Err(ProbeError::NoDuration));
    assert_eq!(VideoStats::load("Duration: 0:01:02., 1x2 ["), Err(ProbeError::NoDuration));
    assert_eq!(VideoStats::load("Duration: 00:01:02, 1x2 ["), Err(ProbeError::NoDuration));
    assert_eq!(VideoStats::load("duration: 00:01:02., 1x2 ["), Err(ProbeError::NoDuration));
    assert_eq!(ProbeError::NoDuration.message(), "duration not found in ffprobe output");
}

#[test]
fn report_without_size() {
    assert_eq!(VideoStats::load("Duration: 00:01:02."), Err(ProbeError::NoResolution));
    assert_eq!(VideoStats::load("Duration: 00:01:02., 12x [, x12 [, 1x2[, 1 x 2 ["), Err(ProbeError::NoResolution));
    assert_eq!(ProbeError::NoResolution.message(), "resolution not found in ffprobe output");
}

#[test]
fn size_beyond_32_bits_is_passed_over() {
    assert_eq!(
        VideoStats::load("Duration: 00:00:01., 4294967296x1 [, 7x8 ["),
        Ok(VideoStats { height: 8, width: 7, duration: 1 })
    );
    assert_eq!(VideoStats::load("Duration: 00:00:01., 1x99999999999999999999999 ["), Err(ProbeError::NoResolution));
}

#[test]
fn download_is_called_with_fixed_options() {
    let download = begin("https://example.com/v");
    assert_eq!(download.notice, "Start yt-dlp…");
    assert_eq!(
        download.arguments,
        vec![
            "--embed-chapters",
            "--embed-metadata",
            "--embed-subs",
            "--sub-langs=all",
            "--sponsorblock-remove=default",
            "--paths=temp:/tmp/yt-dlp",
            "--no-progress",
            "--no-playlist",
            "--restrict-filenames",
            "--trim-filenames=80",
            "--format-sort=vcodec:h264,+size,+br,+res,+fps",
            "https://example.com/v",
        ]
    );
}

#[test]
fn file_is_uploaded_with_its_statistics() {
    assert_eq!(
        file_action("/tmp/x/video.mp4", REPORT),
        FileAction::Upload(VideoStats { height: 720, width: 1280, duration: 83 })
    );
    assert_eq!(
        file_action("/tmp/x/notes.txt", "notes.txt: Invalid data found when processing input"),
        FileAction::Report(
            "Failed to get video stats from: /tmp/x/notes.txt duration not found in ffprobe output".to_owned()
        )
    );
    assert_eq!(
        file_action("a.mp3", "Duration: 00:00:09.10, start: 0"),
        FileAction::Report("Failed to get video stats from: a.mp3 resolution not found in ffprobe output".to_owned())
    );
    assert_eq!(upload_failure("too large"), "Failed to send_video from yt-dlp output: too large");
}

#[test]
fn run_is_reported() {
    let done = finish(true, "exit status: 0", "[download] 100%\n", "");
    assert_eq!(done.start, StartFate::Delete);
    assert_eq!(done.stdout.len(), 1);
    assert_eq!(done.stdout[0].header.as_deref(), Some("yt-dlp stdout"));
    assert_eq!(done.stdout[0].language.as_deref(), Some("plaintext"));
    assert_eq!(done.stdout[0].body, "[download] 100%\n");
    assert_eq!(done.stderr.len(), 0);

    let failed = finish(false, "exit status: 1", "", "ERROR: unsupported URL\n");
    assert_eq!(failed.start, StartFate::Edit("yt-dlp exit status: 1".to_owned()));
    assert_eq!(failed.stdout.len(), 0);
    assert_eq!(failed.stderr.len(), 1);
    assert_eq!(failed.stderr[0].message().text, "yt-dlp stderr:\nERROR: unsupported URL\n");
}

#[test]
fn download_goes_step_by_step() {
    let action = send_video(&DownloadEvent::Start { url: "https://example.com/v" });
    assert_eq!(action, DownloadAction::Begin(begin("https://example.com/v")));

    let action = send_video(&DownloadEvent::File { path: "v.mp4", probe_output: REPORT });
    assert_eq!(
        action,
        DownloadAction::Handle(FileAction::Upload(VideoStats { height: 720, width: 1280, duration: 83 }))
    );
    let action = send_video(&DownloadEvent::File { path: "v.txt", probe_output: "" });
    assert_eq!(
        action,
        DownloadAction::Handle(FileAction::Report(
            "Failed to get video stats from: v.txt duration not found in ffprobe output".to_owned()
        ))
    );

    let action = send_video(&DownloadEvent::UploadFailed { error: "too large" });
    assert_eq!(
        action,
        DownloadAction::Tell("Failed to send_video from yt-dlp output: too large".to_owned())
    );
}

#[test]
fn end_of_the_run_settles_the_first_message_and_relays_the_logs() {
    let event = DownloadEvent::Finished {
        success: true,
        status: "exit status: 0",
        stdout: "[download] 100%\n",
        stderr: "",
    };
    let DownloadAction::End(done) = send_video(&event) else {
        panic!("the end of the run should be reported");
    };
    assert_eq!(done.start, StartFate::Delete);
    assert_eq!(done.stdout.len(), 1);
    assert_eq!(done.stdout[0].message().text, "yt-dlp stdout:\n[download] 100%\n");
    assert_eq!(done.stdout[0].language.as_deref(), Some("plaintext"));
    assert_eq!(done.stderr.len(), 0);

    let long = "WARNING: something\n".repeat(1000);
    let event = DownloadEvent::Finished {
        success: false,
        status: "exit status: 1",
        stdout: " \n",
        stderr: &long,
    };
    let DownloadAction::End(failed) = send_video(&event) else {
        panic!("the end of the run should be reported");
    };
    assert_eq!(failed.start, StartFate::Edit("yt-dlp exit status: 1".to_owned()));
    assert_eq!(failed.stdout.len(), 0);
    assert!(failed.stderr.len() > 1);
    let mut whole = String::new();
    for chunk in &failed.stderr {
        assert_eq!(chunk.header.as_deref(), Some("yt-dlp stderr"));
        assert!(chunk.message().text.len() <= 4090);
        whole.push_str(&chunk.body);
    }
    assert_eq!(whole, long);
}
