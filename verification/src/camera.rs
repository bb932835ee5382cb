//! The camera: its reported status and the command lines of the capture tools.
use vstd::prelude::*;
use crate::config::CameraConfig;
use crate::devices::strs;
use crate::text::{chars_of, decimal, decimal_exec, extend_chars, extend_str, string_from_chars};

verus! {

#[derive(Clone, Copy, Debug)]
pub struct CameraStatus {
    pub online: bool,
    pub recording: bool,
    pub night_vision: bool,
    pub resolution: (u32, u32),
    pub fps: u32,
}

/// The camera's status: online while previewing or recording, night vision as
/// the infrared setting, and the configured resolution and frame rate.
pub fn camera_status(config: &CameraConfig, recording: bool, previewing: bool) -> (r: CameraStatus)
    ensures
        r.online == (previewing || recording),
        r.recording == recording,
        r.night_vision == config.ir_enabled,
        r.resolution == (config.width, config.height),
        r.fps == config.fps,
{
    CameraStatus {
        online: previewing || recording,
        recording,
        night_vision: config.ir_enabled,
        resolution: (config.width, config.height),
        fps: config.fps,
    }
}

fn number_string(n: u32) -> (r: String)
    ensures
        r@ == decimal(n as nat),
{
    let d = decimal_exec(n as u64);
    string_from_chars(d.as_slice())
}

fn text(s: &str) -> (r: String)
    ensures
        r@ == s@,
{
    String::from_str(s)
}

/// The arguments of `rpicam-vid` for the live MJPEG stream, written to stdout.
pub open spec fn stream_args_spec(c: CameraConfig) -> Seq<Seq<char>> {
    seq![
        "--inline"@,
        "--codec"@,
        "mjpeg"@,
        "--width"@,
        decimal(c.width as nat),
        "--height"@,
        decimal(c.height as nat),
        "--framerate"@,
        decimal(c.fps as nat),
        "--timeout"@,
        "0"@,
        "--nopreview"@,
        "-o"@,
        "-"@,
    ]
}

/// The arguments of `rpicam-vid` for recording an H.264 clip to `file`.
pub open spec fn record_args_spec(c: CameraConfig, file: Seq<char>) -> Seq<Seq<char>> {
    seq![
        "--codec"@,
        "h264"@,
        "--width"@,
        decimal(c.width as nat),
        "--height"@,
        decimal(c.height as nat),
        "--framerate"@,
        decimal(c.fps as nat),
        "--timeout"@,
        "0"@,
        "--nopreview"@,
        "--inline"@,
        "-o"@,
        file,
    ]
}

/// The arguments of `rpicam-still` for a snapshot to `file`.
pub open spec fn snapshot_args_spec(c: CameraConfig, file: Seq<char>) -> Seq<Seq<char>> {
    seq![
        "--width"@,
        decimal(c.width as nat),
        "--height"@,
        decimal(c.height as nat),
        "--nopreview"@,
        "-o"@,
        file,
    ]
}

pub fn stream_args(c: &CameraConfig) -> (r: Vec<String>)
    ensures
        strs(r@) == stream_args_spec(*c),
{
    let mut r: Vec<String> = Vec::new();
    r.push(text("--inline"));
    r.push(text("--codec"));
    r.push(text("mjpeg"));
    r.push(text("--width"));
    r.push(number_string(c.width));
    r.push(text("--height"));
    r.push(number_string(c.height));
    r.push(text("--framerate"));
    r.push(number_string(c.fps));
    r.push(text("--timeout"));
    r.push(text("0"));
    r.push(text("--nopreview"));
    r.push(text("-o"));
    r.push(text("-"));
    assert(strs(r@) =~= stream_args_spec(*c));
    r
}

pub fn record_args(c: &CameraConfig, file: &str) -> (r: Vec<String>)
    ensures
        strs(r@) == record_args_spec(*c, file@),
{
    let mut r: Vec<String> = Vec::new();
    r.push(text("--codec"));
    r.push(text("h264"));
    r.push(text("--width"));
    r.push(number_string(c.width));
    r.push(text("--height"));
    r.push(number_string(c.height));
    r.push(text("--framerate"));
    r.push(number_string(c.fps));
    r.push(text("--timeout"));
    r.push(text("0"));
    r.push(text("--nopreview"));
    r.push(text("--inline"));
    r.push(text("-o"));
    r.push(text(file));
    assert(strs(r@) =~= record_args_spec(*c, file@));
    r
}

pub fn snapshot_args(c: &CameraConfig, file: &str) -> (r: Vec<String>)
    ensures
        strs(r@) == snapshot_args_spec(*c, file@),
{
    let mut r: Vec<String> = Vec::new();
    r.push(text("--width"));
    r.push(number_string(c.width));
    r.push(text("--height"));
    r.push(number_string(c.height));
    r.push(text("--nopreview"));
    r.push(text("-o"));
    r.push(text(file));
    assert(strs(r@) =~= snapshot_args_spec(*c, file@));
    r
}

/// The file a clip recorded at `stamp` (`YYYYmmdd_HHMMSS`) goes to.
pub fn clip_filename(clip_dir: &str, stamp: &str) -> (r: String)
    ensures
        r@ == clip_dir@ + "/clip_"@ + stamp@ + ".h264"@,
{
    let mut b = chars_of(clip_dir);
    extend_str(&mut b, "/clip_");
    extend_str(&mut b, stamp);
    extend_str(&mut b, ".h264");
    string_from_chars(b.as_slice())
}

/// Why a recording cannot start.
#[derive(Clone, Copy, Debug, PartialEq, Eq, Structural)]
pub enum RecordError {
    /// A recording is already running.
    AlreadyRecording,
}

impl RecordError {
    pub fn message(&self) -> (r: &'static str)
        ensures
            r@ == "already recording"@,
    {
        "already recording"
    }
}

/// The text chrono writes for the instant `secs` seconds after the Unix epoch
/// in UTC with the pattern `%Y%m%d_%H%M%S`.
pub uninterp spec fn utc_stamp(secs: int) -> Seq<char>;

/// chrono's `DateTime::<Utc>::from_timestamp(secs, 0)`, written with
/// `format("%Y%m%d_%H%M%S")`: the time stamp of clip and snapshot files. The
/// text is a function of `secs` alone; for an instant chrono cannot hold (some
/// 262,000 years away) it is empty.
#[verifier::external_body]
fn utc_stamp_text(secs: i64) -> (r: String)
    ensures
        r@ == utc_stamp(secs as int),
{
    match chrono::DateTime::from_timestamp(secs, 0) {
        Some(d) => d.format("%Y%m%d_%H%M%S").to_string(),
        None => String::new(),
    }
}

/// The file a new recording started at `now_secs` (seconds since the Unix epoch)
/// goes to, refused while a recording is already running.
pub fn recording_target(already_recording: bool, clip_dir: &str, now_secs: i64) -> (r: Result<
    String,
    RecordError,
>)
    ensures
        r is Err <==> already_recording,
        r matches Ok(p) ==> p@ == clip_dir@ + "/clip_"@ + utc_stamp(now_secs as int) + ".h264"@,
{
    if already_recording {
        Err(RecordError::AlreadyRecording)
    } else {
        let stamp = utc_stamp_text(now_secs);
        Ok(clip_filename(clip_dir, stamp.as_str()))
    }
}

/// The file a snapshot taken at `now_secs` (seconds since the Unix epoch) goes to.
pub fn snapshot_target(clip_dir: &str, now_secs: i64) -> (r: String)
    ensures
        r@ == clip_dir@ + "/snap_"@ + utc_stamp(now_secs as int) + ".jpg"@,
{
    let stamp = utc_stamp_text(now_secs);
    snapshot_filename(clip_dir, stamp.as_str())
}

/// The file a snapshot taken at `stamp` (`YYYYmmdd_HHMMSS`) goes to.
pub fn snapshot_filename(clip_dir: &str, stamp: &str) -> (r: String)
    ensures
        r@ == clip_dir@ + "/snap_"@ + stamp@ + ".jpg"@,
{
    let mut b = chars_of(clip_dir);
    extend_str(&mut b, "/snap_");
    extend_str(&mut b, stamp);
    extend_str(&mut b, ".jpg");
    string_from_chars(b.as_slice())
}

/// The MJPEG stream of the camera, read from `rpicam-vid`.
pub struct MjpegStream;

impl MjpegStream {
    /// The arguments the stream's `rpicam-vid` runs with.
    pub fn command_args(config: &CameraConfig) -> (r: Vec<String>)
        ensures
            strs(r@) == stream_args_spec(*config),
    {
        stream_args(config)
    }
}

} // verus!
