//! Video download through an outside tool: how the tool is called, what
//! becomes of each file that it leaves, and how its run is reported.
//!
//! [`send_video`] is the step of the download: the caller hands in what
//! happened and carries out what comes back.

use crate::chunk::{bodies_of, chunk_bodies, emit, opt_string, overhead, RelayChunk, LIMIT};
use crate::ffmpeg::{duration_at, reported, resolution_at, ProbeError, VideoStats};
use crate::http::string_views;
use crate::text::is_blank;
use vstd::prelude::*;
use vstd::string::StringExecFns;
use vstd::utf8::{is_ascii_chars, is_ascii_chars_encode_utf8};

verus! {

/// How a download begins.
#[derive(Debug, PartialEq, Eq)]
pub struct Download {
    /// What the chat is told first.
    pub notice: String,
    /// The arguments that the tool is called with.
    pub arguments: Vec<String>,
}

/// The options that the tool is always called with, in order.
pub open spec fn fixed_options() -> Seq<Seq<char>> {
    seq![
        "--embed-chapters"@,
        "--embed-metadata"@,
        "--embed-subs"@,
        "--sub-langs=all"@,
        "--sponsorblock-remove=default"@,
        "--paths=temp:/tmp/yt-dlp"@,
        "--no-progress"@,
        "--no-playlist"@,
        "--restrict-filenames"@,
        "--trim-filenames=80"@,
        "--format-sort=vcodec:h264,+size,+br,+res,+fps"@,
    ]
}

/// True when `download` begins the download of the video at `url`: the
/// chat is told that the tool starts, and the tool is called with its fixed
/// options and the URL.
pub open spec fn begins(download: Download, url: Seq<char>) -> bool {
    &&& download.notice@ == "Start yt-dlp…"@
    &&& string_views(download.arguments@) == fixed_options().push(url)
}

/// Begins the download of the video at `url`.
pub fn begin(url: &str) -> (download: Download)
    ensures
        begins(download, url@),
{
    let mut arguments: Vec<String> = Vec::new();
    arguments.push("--embed-chapters".to_owned());
    arguments.push("--embed-metadata".to_owned());
    arguments.push("--embed-subs".to_owned());
    arguments.push("--sub-langs=all".to_owned());
    arguments.push("--sponsorblock-remove=default".to_owned());
    arguments.push("--paths=temp:/tmp/yt-dlp".to_owned());
    arguments.push("--no-progress".to_owned());
    arguments.push("--no-playlist".to_owned());
    arguments.push("--restrict-filenames".to_owned());
    arguments.push("--trim-filenames=80".to_owned());
    arguments.push("--format-sort=vcodec:h264,+size,+br,+res,+fps".to_owned());
    arguments.push(url.to_owned());
    assert(string_views(arguments@) =~= fixed_options().push(url@));
    Download { notice: "Start yt-dlp…".to_owned(), arguments }
}

/// What becomes of one file that the tool left.
#[derive(Debug, PartialEq, Eq)]
pub enum FileAction {
    /// The file is uploaded as a video with these statistics.
    Upload(VideoStats),
    /// The chat is told why the file is not uploaded.
    Report(String),
}

/// What the chat is told of a file whose statistics could not be read.
pub open spec fn probe_failure(path: Seq<char>, error: ProbeError) -> Seq<char> {
    "Failed to get video stats from: "@ + path + " "@ + match error {
        ProbeError::NoDuration => "duration not found in ffprobe output"@,
        ProbeError::NoResolution => "resolution not found in ffprobe output"@,
    }
}

/// True when `action` is what becomes of the file at `path`, of which the
/// probe printed `probe_output`: an upload with the statistics that the
/// report gives, or a message that says what the report lacks.
pub open spec fn handles(action: FileAction, path: Seq<char>, probe_output: Seq<char>) -> bool {
    match action {
        FileAction::Upload(stats) => reported(probe_output, stats),
        FileAction::Report(text) => if forall|i: int| !duration_at(probe_output, i) {
            text@ == probe_failure(path, ProbeError::NoDuration)
        } else {
            text@ == probe_failure(path, ProbeError::NoResolution) && forall|i: int|
                !resolution_at(probe_output, i)
        },
    }
}

/// Decides what becomes of the file at `path`, given what the probe printed
/// about it: an upload with the statistics read from the report, or a
/// message that says what the report lacks.
pub fn file_action(path: &str, probe_output: &str) -> (action: FileAction)
    ensures
        handles(action, path@, probe_output@),
{
    match VideoStats::load(probe_output) {
        Ok(stats) => FileAction::Upload(stats),
        Err(error) => {
            let mut text = "Failed to get video stats from: ".to_owned();
            text.append(path);
            text.append(" ");
            text.append(error.message().as_str());
            assert(text@ =~= probe_failure(path@, error));
            FileAction::Report(text)
        },
    }
}

/// What the chat is told where an upload failed for the reason `error`.
pub fn upload_failure(error: &str) -> (text: String)
    ensures
        text@ == "Failed to send_video from yt-dlp output: "@ + error@,
{
    let mut text = "Failed to send_video from yt-dlp output: ".to_owned();
    text.append(error);
    text
}

/// What becomes of the first message once the tool has ended.
#[derive(Debug, PartialEq, Eq)]
pub enum StartFate {
    /// The tool ended well: the message is deleted.
    Delete,
    /// The tool failed: the message is replaced by this text.
    Edit(String),
}

/// How the run of the tool is reported.
#[derive(Debug, PartialEq, Eq)]
pub struct Finish {
    pub start: StartFate,
    /// What the tool printed, in chunks.
    pub stdout: Vec<RelayChunk>,
    /// What the tool printed as errors, in chunks.
    pub stderr: Vec<RelayChunk>,
}

/// True when `chunks` relay `text` under `header` as plain text.
pub open spec fn relays_log(chunks: Seq<RelayChunk>, header: Seq<char>, text: Seq<char>) -> bool {
    &&& bodies_of(chunks) == chunk_bodies(text, (LIMIT - overhead(Some(header))) as nat)
    &&& forall|i: int|
        0 <= i < chunks.len() ==> {
            &&& opt_string((#[trigger] chunks[i]).header) == Some(header)
            &&& opt_string(chunks[i].language) == Some("plaintext"@)
            &&& chunks[i].fits()
            &&& !is_blank(chunks[i].body@)
        }
}

/// True when `finish` reports a run of the tool: the first message is
/// deleted after a run that ended well and otherwise replaced by `yt-dlp `
/// and the status of the run; what the tool printed is relayed as plain text
/// through the chunked relay, its output under `yt-dlp stdout`, then its
/// errors under `yt-dlp stderr`.
pub open spec fn ends(
    finish: Finish,
    success: bool,
    status: Seq<char>,
    stdout: Seq<char>,
    stderr: Seq<char>,
) -> bool {
    &&& success ==> finish.start is Delete
    &&& !success ==> (finish.start matches StartFate::Edit(text) && text@ == "yt-dlp "@ + status)
    &&& relays_log(finish.stdout@, "yt-dlp stdout"@, stdout)
    &&& relays_log(finish.stderr@, "yt-dlp stderr"@, stderr)
}

/// Relays what the tool printed under `header`.
fn relay_log(header: &str, text: &str) -> (chunks: Vec<RelayChunk>)
    requires
        is_ascii_chars(header@),
        header@.len() <= 64,
    ensures
        relays_log(chunks@, header@, text@),
{
    proof {
        is_ascii_chars_encode_utf8(header@);
    }
    match emit(Some(header), Some("plaintext"), text) {
        Ok(chunks) => chunks,
        Err(_) => Vec::new(),
    }
}

/// Reports the run of the tool: the first message is deleted after a run
/// that ended well and otherwise replaced by the status of the run; then
/// what the tool printed is relayed, first its output, then its errors.
pub fn finish(success: bool, status: &str, stdout: &str, stderr: &str) -> (finish: Finish)
    ensures
        ends(finish, success, status@, stdout@, stderr@),
{
    let start = if success {
        StartFate::Delete
    } else {
        let mut text = "yt-dlp ".to_owned();
        text.append(status);
        StartFate::Edit(text)
    };
    proof {
        reveal_strlit("yt-dlp stdout");
        reveal_strlit("yt-dlp stderr");
    }
    Finish {
        start,
        stdout: relay_log("yt-dlp stdout", stdout),
        stderr: relay_log("yt-dlp stderr", stderr),
    }
}

/// What happened in the course of a download.
#[derive(Debug, Clone, Copy, PartialEq, Eq)]
pub enum DownloadEvent<'a> {
    /// A video at `url` is asked for.
    Start { url: &'a str },
    /// The tool left a file at `path`, of which the probe printed `probe_output`.
    File { path: &'a str, probe_output: &'a str },
    /// The upload of a file failed for the reason `error`.
    UploadFailed { error: &'a str },
    /// The tool ended with `status`, having printed `stdout` and `stderr`.
    Finished { success: bool, status: &'a str, stdout: &'a str, stderr: &'a str },
}

/// What to do next in the course of a download.
#[derive(Debug, PartialEq, Eq)]
pub enum DownloadAction {
    /// Tell the chat that the tool starts, and call the tool.
    Begin(Download),
    /// Upload the file, or tell the chat why not.
    Handle(FileAction),
    /// Tell the chat this text.
    Tell(String),
    /// Settle the first message and relay what the tool printed.
    End(Finish),
}

/// True when `action` is what follows on `event`.
pub open spec fn follows(action: DownloadAction, event: DownloadEvent) -> bool {
    match event {
        DownloadEvent::Start { url } => action matches DownloadAction::Begin(download) && begins(
            download,
            url@,
        ),
        DownloadEvent::File { path, probe_output } => action matches DownloadAction::Handle(
            file,
        ) && handles(file, path@, probe_output@),
        DownloadEvent::UploadFailed { error } => action matches DownloadAction::Tell(text)
            && text@ == "Failed to send_video from yt-dlp output: "@ + error@,
        DownloadEvent::Finished { success, status, stdout, stderr } => action
            matches DownloadAction::End(finish) && ends(
            finish,
            success,
            status@,
            stdout@,
            stderr@,
        ),
    }
}

/// The step of a download, from what happened to what to do next.
///
/// At the start the chat is told that the tool starts, and the tool is
/// called with its fixed options and the URL. Each file that the tool left
/// is uploaded with the statistics that the probe reports, or the chat is
/// told what the report lacks. A failed upload is told to the chat. At the
/// end the first message is deleted where the tool ended well and otherwise
/// replaced by `yt-dlp ` and the status; then the output of the tool, then
/// its errors, go through the chunked relay as plain text.
pub fn send_video(event: &DownloadEvent) -> (action: DownloadAction)
    ensures
        follows(action, *event),
{
    match *event {
        DownloadEvent::Start { url } => DownloadAction::Begin(begin(url)),
        DownloadEvent::File { path, probe_output } => DownloadAction::Handle(
            file_action(path, probe_output),
        ),
        DownloadEvent::UploadFailed { error } => DownloadAction::Tell(upload_failure(error)),
        DownloadEvent::Finished { success, status, stdout, stderr } => DownloadAction::End(
            finish(success, status, stdout, stderr),
        ),
    }
}

} // verus!
