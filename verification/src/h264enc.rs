//! The H.264 side of the host: recognising key frames in an encoder's output, and the
//! decisions taken while an encoder is set up, fed and drained.
use crate::text::{call_error, failure_text};
use vstd::prelude::*;

verus! {

// ---- Key frames in an Annex B stream ---------------------------------------

/// An encoded video frame, ready to be sent.
pub struct EncodedFrame {
    pub data: Vec<u8>,
    pub keyframe: bool,
}

/// Whether a start code stands at position `i`, followed by the header of an IDR
/// slice (type 5) or of a sequence parameter set (type 7).
pub open spec fn key_unit_at(data: Seq<u8>, i: int) -> bool {
    &&& 0 <= i
    &&& i + 3 < data.len()
    &&& data[i] == 0
    &&& data[i + 1] == 0
    &&& data[i + 2] == 1
    &&& (data[i + 3] & 0x1F == 5 || data[i + 3] & 0x1F == 7)
}

/// Whether an Annex B access unit can be decoded on its own.
pub open spec fn is_key_frame(data: Seq<u8>) -> bool {
    exists|i: int| key_unit_at(data, i)
}

/// Looks for an IDR slice or a sequence parameter set in an Annex B buffer: where one
/// occurs, a decoder can start at this access unit.
pub fn contains_idr_or_sps(data: &[u8]) -> (found: bool)
    ensures
        found == is_key_frame(data@),
{
    let n: usize = data.len();
    if n < 4 {
        return false;
    }
    let mut i: usize = 0;
    while i < n - 3
        invariant
            n == data@.len(),
            4 <= n,
            0 <= i <= n,
            forall|j: int| j < i ==> !key_unit_at(data@, j),
        decreases n - i,
    {
        let start3 = data[i] == 0 && data[i + 1] == 0 && data[i + 2] == 1;
        let start4 = !start3 && i < n - 4 && data[i] == 0 && data[i + 1] == 0 && data[i + 2] == 0
            && data[i + 3] == 1;
        if start3 || start4 {
            let hdr: usize = if start3 {
                i + 3
            } else {
                i + 4
            };
            let nal_type: u8 = data[hdr] & 0x1F;
            if nal_type == 5 || nal_type == 7 {
                proof {
                    assert(key_unit_at(data@, hdr - 3));
                }
                return true;
            }
            assert(forall|j: int| i <= j < hdr ==> !key_unit_at(data@, j));
            i = hdr;
        } else {
            i = i + 1;
        }
    }
    false
}

// ---- Setting up and draining an encoder ------------------------------------

/// H.264 level times ten that allows frames of so many pixels.
pub open spec fn level_of(pixels: int) -> u32 {
    if pixels <= 921_600 {
        31
    } else if pixels <= 2_073_600 {
        40
    } else {
        42
    }
}

/// H.264 level times ten that allows frames of the given size.
pub fn level_for(width: u32, height: u32) -> (level: u32)
    ensures
        level == if width * height <= 921_600 {
            31u32
        } else if width * height <= 2_073_600 {
            40u32
        } else {
            42u32
        },
        level == level_of(width * height),
{
    assert(width * height <= 0xFFFF_FFFF * 0xFFFF_FFFF) by (nonlinear_arith)
        requires
            width <= 0xFFFF_FFFF,
            height <= 0xFFFF_FFFF,
    ;
    let pixels: u64 = (width as u64) * (height as u64);
    if pixels <= 921_600 {
        31
    } else if pixels <= 2_073_600 {
        40
    } else {
        42
    }
}

/// Two 32-bit numbers in one 64-bit attribute, the first in the upper half.
pub fn packed_pair(upper: u32, lower: u32) -> (packed: u64)
    ensures
        packed == upper * 0x1_0000_0000 + lower,
{
    let a = upper as u64;
    let b = lower as u64;
    assert((a << 32) | b == a * 0x1_0000_0000 + b) by (bit_vector)
        requires
            a <= 0xFFFF_FFFF,
            b <= 0xFFFF_FFFF,
    ;
    (a << 32) | b
}

/// An attribute of a video format.
#[derive(Clone, Copy, PartialEq, Eq, Debug, Structural)]
pub enum VideoAttribute {
    /// It is video.
    Video,
    /// It is coded as H.264.
    CodedH264,
    /// It is a sequence of NV12 pictures.
    RawNv12,
    /// Width and height.
    FrameSize(u64),
    /// Frames and the seconds that they last.
    FrameRate(u64),
    /// Pictures are whole, not interlaced.
    Progressive,
    /// Every sample stands on its own.
    SamplesIndependent,
    /// Bits a second.
    AverageBitrate(u32),
    /// Profile of the codec.
    Profile(u32),
}

/// The attributes of a video format, in the order in which they are set.
pub open spec fn video_attributes(
    coded: bool,
    width: u32,
    height: u32,
    fps: u32,
    bitrate: Option<u32>,
    profile: Option<u32>,
) -> Seq<VideoAttribute> {
    let common = seq![
        VideoAttribute::Video,
        if coded {
            VideoAttribute::CodedH264
        } else {
            VideoAttribute::RawNv12
        },
        VideoAttribute::FrameSize((width * 0x1_0000_0000 + height) as u64),
        VideoAttribute::FrameRate((fps * 0x1_0000_0000 + 1) as u64),
        VideoAttribute::Progressive,
        VideoAttribute::SamplesIndependent,
    ];
    let rated = if let Some(bps) = bitrate {
        common.push(VideoAttribute::AverageBitrate(bps))
    } else {
        common
    };
    if let Some(p) = profile {
        rated.push(VideoAttribute::Profile(p))
    } else {
        rated
    }
}

/// The attributes of a video format, in the order in which they are set.
pub fn make_video_type(
    coded: bool,
    width: u32,
    height: u32,
    fps: u32,
    bitrate: Option<u32>,
    profile: Option<u32>,
) -> (out: Vec<VideoAttribute>)
    ensures
        out@ == video_attributes(coded, width, height, fps, bitrate, profile),
{
    let mut out: Vec<VideoAttribute> = Vec::new();
    out.push(VideoAttribute::Video);
    out.push(
        if coded {
            VideoAttribute::CodedH264
        } else {
            VideoAttribute::RawNv12
        },
    );
    out.push(VideoAttribute::FrameSize(packed_pair(width, height)));
    out.push(VideoAttribute::FrameRate(packed_pair(fps, 1)));
    out.push(VideoAttribute::Progressive);
    out.push(VideoAttribute::SamplesIndependent);
    if let Some(bps) = bitrate {
        out.push(VideoAttribute::AverageBitrate(bps));
    }
    if let Some(p) = profile {
        out.push(VideoAttribute::Profile(p));
    }
    out
}

/// The calls that bring an encoder up, in the order in which they are made.
#[derive(Clone, Copy, PartialEq, Eq, Debug, Structural)]
pub enum SetupStep {
    InitCom,
    StartPlatform,
    Enumerate,
    Activate,
    DescribeOutput,
    SetOutput,
    Tune,
    DescribeInput,
    SetInput,
    BeginStreaming,
    StartStream,
    QueryOutput,
    Ready,
}

/// What became of one of the encoders that the system lists.
pub enum Candidate {
    /// It could not be activated.
    Failed(String),
    /// It works asynchronously, which is not supported.
    Asynchronous,
    /// It works synchronously.
    Synchronous,
}

/// Outcome of the call that the current step stands for.
pub enum SetupEvent {
    /// The call succeeded.
    Done,
    /// The call failed, with the reason given.
    Failed(String),
    /// The system lists this many encoders.
    Encoders(u32),
    /// The next listed encoder has been tried.
    Tried(Candidate),
    /// Every listed encoder has been tried.
    Exhausted,
}

/// Position of a step in the order of the calls.
pub open spec fn step_rank(step: SetupStep) -> int {
    match step {
        SetupStep::InitCom => 0,
        SetupStep::StartPlatform => 1,
        SetupStep::Enumerate => 2,
        SetupStep::Activate => 3,
        SetupStep::DescribeOutput => 4,
        SetupStep::SetOutput => 5,
        SetupStep::Tune => 6,
        SetupStep::DescribeInput => 7,
        SetupStep::SetInput => 8,
        SetupStep::BeginStreaming => 9,
        SetupStep::StartStream => 10,
        SetupStep::QueryOutput => 11,
        SetupStep::Ready => 12,
    }
}

/// Name of the call behind a step, as error messages give it.
pub open spec fn step_name(step: SetupStep) -> Seq<char> {
    match step {
        SetupStep::InitCom => "CoInitializeEx"@,
        SetupStep::StartPlatform => "MFStartup"@,
        SetupStep::Enumerate => "MFTEnumEx"@,
        SetupStep::Activate => "ActivateObject"@,
        SetupStep::DescribeOutput => "output media type"@,
        SetupStep::SetOutput => "SetOutputType"@,
        SetupStep::Tune => "ICodecAPI"@,
        SetupStep::DescribeInput => "input media type"@,
        SetupStep::SetInput => "SetInputType"@,
        SetupStep::BeginStreaming => "BEGIN_STREAMING"@,
        SetupStep::StartStream => "START_OF_STREAM"@,
        SetupStep::QueryOutput => "GetOutputStreamInfo"@,
        SetupStep::Ready => ""@,
    }
}

/// Whether an event can follow the call of a step. The list of encoders comes from
/// the enumeration alone; the trials come from the activation alone; failures to
/// tune the codec are of no consequence and are not reported.
pub open spec fn event_fits(step: SetupStep, event: SetupEvent) -> bool {
    match event {
        SetupEvent::Done => step !is Enumerate && step !is Activate && step !is Ready,
        SetupEvent::Failed(_) => step !is Activate && step !is Tune && step !is Ready,
        SetupEvent::Encoders(_) => step is Enumerate,
        SetupEvent::Tried(_) => step is Activate,
        SetupEvent::Exhausted => step is Activate,
    }
}

/// Step that an accepted event leads to, or the error that ends the setup. `noted`
/// is what the last encoder that had to be skipped was skipped for.
pub open spec fn setup_outcome(step: SetupStep, noted: Seq<char>, event: SetupEvent) -> Result<
    int,
    Seq<char>,
> {
    match event {
        SetupEvent::Done => Ok(step_rank(step) + 1),
        SetupEvent::Failed(why) => Err(failure_text(step_name(step), why@)),
        SetupEvent::Encoders(count) => if count == 0 {
            Err("no hay ningun encoder H.264 disponible (MFTEnumEx devolvio 0)"@)
        } else {
            Ok(step_rank(SetupStep::Activate))
        },
        SetupEvent::Tried(Candidate::Synchronous) => Ok(step_rank(SetupStep::DescribeOutput)),
        SetupEvent::Tried(_) => Ok(step_rank(SetupStep::Activate)),
        SetupEvent::Exhausted => Err(
            if noted.len() == 0 {
                "MFTEnumEx: lista vacia"@
            } else {
                noted
            },
        ),
    }
}

/// What is noted of skipped encoders once the event has been handled.
pub open spec fn noted_after(noted: Seq<char>, event: SetupEvent) -> Seq<char> {
    match event {
        SetupEvent::Tried(Candidate::Failed(why)) => failure_text("ActivateObject"@, why@),
        SetupEvent::Tried(Candidate::Asynchronous) => "MFT asincrono (no soportado): saltado"@,
        _ => noted,
    }
}

/// Progress of bringing an encoder up.
pub struct EncoderSetup {
    pub step: SetupStep,
    pub last_err: String,
}

fn name_of(step: SetupStep) -> (name: &'static str)
    ensures
        name@ == step_name(step),
{
    match step {
        SetupStep::InitCom => "CoInitializeEx",
        SetupStep::StartPlatform => "MFStartup",
        SetupStep::Enumerate => "MFTEnumEx",
        SetupStep::Activate => "ActivateObject",
        SetupStep::DescribeOutput => "output media type",
        SetupStep::SetOutput => "SetOutputType",
        SetupStep::Tune => "ICodecAPI",
        SetupStep::DescribeInput => "input media type",
        SetupStep::SetInput => "SetInputType",
        SetupStep::BeginStreaming => "BEGIN_STREAMING",
        SetupStep::StartStream => "START_OF_STREAM",
        SetupStep::QueryOutput => "GetOutputStreamInfo",
        SetupStep::Ready => "",
    }
}

fn step_after(step: SetupStep) -> (next: SetupStep)
    requires
        step !is Ready,
    ensures
        step_rank(next) == step_rank(step) + 1,
{
    match step {
        SetupStep::InitCom => SetupStep::StartPlatform,
        SetupStep::StartPlatform => SetupStep::Enumerate,
        SetupStep::Enumerate => SetupStep::Activate,
        SetupStep::Activate => SetupStep::DescribeOutput,
        SetupStep::DescribeOutput => SetupStep::SetOutput,
        SetupStep::SetOutput => SetupStep::Tune,
        SetupStep::Tune => SetupStep::DescribeInput,
        SetupStep::DescribeInput => SetupStep::SetInput,
        SetupStep::SetInput => SetupStep::BeginStreaming,
        SetupStep::BeginStreaming => SetupStep::StartStream,
        SetupStep::StartStream => SetupStep::QueryOutput,
        SetupStep::QueryOutput => SetupStep::Ready,
        SetupStep::Ready => SetupStep::Ready,
    }
}

impl EncoderSetup {
    /// A setup at its first call.
    pub fn new() -> (setup: EncoderSetup)
        ensures
            setup.step == SetupStep::InitCom,
            setup.last_err@.len() == 0,
    {
        EncoderSetup { step: SetupStep::InitCom, last_err: String::new() }
    }

    /// Takes the outcome of the current call and moves to the next one, or gives the
    /// error that ends the setup. An encoder that cannot be used is noted and
    /// skipped; the first synchronous one is taken.
    pub fn handle(&mut self, event: SetupEvent) -> (outcome: Result<(), String>)
        requires
            event_fits(old(self).step, event),
        ensures
            final(self).last_err@ == noted_after(old(self).last_err@, event),
            match setup_outcome(old(self).step, old(self).last_err@, event) {
                Ok(rank) => outcome is Ok && step_rank(final(self).step) == rank,
                Err(message) => outcome is Err && outcome->Err_0@ == message && final(self).step
                    == old(self).step,
            },
    {
        match event {
            SetupEvent::Done => {
                self.step = step_after(self.step);
                Ok(())
            },
            SetupEvent::Failed(why) => Err(call_error(name_of(self.step), why.as_str())),
            SetupEvent::Encoders(count) => {
                if count == 0 {
                    return Err(
                        "no hay ningun encoder H.264 disponible (MFTEnumEx devolvio 0)".to_owned(),
                    );
                }
                self.step = SetupStep::Activate;
                Ok(())
            },
            SetupEvent::Tried(candidate) => {
                match candidate {
                    Candidate::Failed(why) => {
                        self.last_err = call_error("ActivateObject", why.as_str());
                    },
                    Candidate::Asynchronous => {
                        self.last_err = "MFT asincrono (no soportado): saltado".to_owned();
                    },
                    Candidate::Synchronous => {
                        self.step = SetupStep::DescribeOutput;
                    },
                }
                Ok(())
            },
            SetupEvent::Exhausted => {
                if self.last_err.as_str().is_empty() {
                    Err("MFTEnumEx: lista vacia".to_owned())
                } else {
                    Err(self.last_err.clone())
                }
            },
        }
    }
}

/// A rank belongs to one step.
pub proof fn law_rank_names_the_step(a: SetupStep, b: SetupStep)
    requires
        step_rank(a) == step_rank(b),
    ensures
        a == b,
{
}

/// The calls are made in their order, each once: an accepted event either ends the
/// setup, or moves on by one call, or stays where encoders are being tried. In
/// particular the codec is tuned before its input type is set.
pub proof fn law_setup_order(step: SetupStep, noted: Seq<char>, event: SetupEvent)
    requires
        event_fits(step, event),
    ensures
        match setup_outcome(step, noted, event) {
            Ok(rank) => rank == step_rank(step) + 1 || (rank == step_rank(step)
                && step is Activate),
            Err(_) => true,
        },
        step_rank(SetupStep::Tune) < step_rank(SetupStep::SetInput),
{
}

/// What is noted after a number of trials in a row.
pub open spec fn noted_after_all(noted: Seq<char>, tried: Seq<Candidate>) -> Seq<char>
    decreases tried.len(),
{
    if tried.len() == 0 {
        noted
    } else {
        noted_after(noted_after_all(noted, tried.drop_last()), SetupEvent::Tried(tried.last()))
    }
}

/// Where none of the listed encoders works synchronously, the setup fails, and the
/// error is what the last of them was skipped for.
pub proof fn law_last_candidate_explains(tried: Seq<Candidate>)
    requires
        forall|k: int| 0 <= k < tried.len() ==> !(#[trigger] tried[k] is Synchronous),
    ensures
        setup_outcome(
            SetupStep::Activate,
            noted_after_all(Seq::empty(), tried),
            SetupEvent::Exhausted,
        ) == Err::<int, Seq<char>>(
            if tried.len() == 0 {
                "MFTEnumEx: lista vacia"@
            } else {
                match tried.last() {
                    Candidate::Failed(why) => failure_text("ActivateObject"@, why@),
                    _ => "MFT asincrono (no soportado): saltado"@,
                }
            },
        ),
{
    reveal_strlit("MFT asincrono (no soportado): saltado");
    reveal_strlit("ActivateObject");
    if tried.len() > 0 {
        assert(!(tried[tried.len() - 1] is Synchronous));
    }
}

/// A property of the codec and the value it is given.
#[derive(Clone, Copy, PartialEq, Eq, Debug, Structural)]
pub enum CodecProperty {
    LowLatencyMode(bool),
    CommonLowLatency(bool),
    CommonRealTime(bool),
    DefaultBPictureCount(u32),
    /// Constant bit rate.
    ConstantBitRate,
    MeanBitRate(u32),
    GopSize(u32),
    ForceKeyFrame(bool),
}

/// Frames a second, at least one.
pub open spec fn at_least_one(fps: u32) -> u32 {
    if fps == 0 {
        1
    } else {
        fps
    }
}

fn frames_per_second(fps: u32) -> (out: u32)
    ensures
        out == at_least_one(fps),
{
    if fps == 0 {
        1
    } else {
        fps
    }
}

/// The properties that make a codec answer with little delay, in the order in which
/// they are set. A group of pictures lasts two seconds.
pub fn low_latency_tuning(bitrate_bps: u32, fps: u32) -> (properties: Vec<CodecProperty>)
    requires
        fps <= u32::MAX / 2,
    ensures
        properties@ == seq![
            CodecProperty::LowLatencyMode(true),
            CodecProperty::CommonLowLatency(true),
            CodecProperty::CommonRealTime(true),
            CodecProperty::DefaultBPictureCount(0),
            CodecProperty::ConstantBitRate,
            CodecProperty::MeanBitRate(bitrate_bps),
            CodecProperty::GopSize((at_least_one(fps) * 2) as u32),
        ],
{
    let mut properties: Vec<CodecProperty> = Vec::new();
    properties.push(CodecProperty::LowLatencyMode(true));
    properties.push(CodecProperty::CommonLowLatency(true));
    properties.push(CodecProperty::CommonRealTime(true));
    properties.push(CodecProperty::DefaultBPictureCount(0));
    properties.push(CodecProperty::ConstantBitRate);
    properties.push(CodecProperty::MeanBitRate(bitrate_bps));
    properties.push(CodecProperty::GopSize(frames_per_second(fps) * 2));
    properties
}

/// Time stamp and duration of a frame, in units of 100 nanoseconds.
#[derive(Clone, Copy, PartialEq, Eq, Debug, Structural)]
pub struct FrameTiming {
    pub pts_100ns: i64,
    pub duration_100ns: i64,
}

/// Bytes of an output buffer for frames of so many pixels, where the codec suggests a size.
pub open spec fn output_size(pixels: int, suggested: int) -> int {
    let half = pixels / 2;
    let least = if half > 65536 {
        half
    } else {
        65536
    };
    if suggested > least {
        suggested
    } else {
        least
    }
}

/// How long a frame lasts, in units of 100 nanoseconds.
pub open spec fn duration_of(fps: u32) -> int {
    10_000_000int / at_least_one(fps) as int
}

/// Time stamp of a frame that `frames` frames of the same duration lie before.
pub open spec fn pts_of(start: int, duration: int, frames: nat) -> int
    decreases frames,
{
    if frames == 0 {
        start
    } else {
        pts_of(start, duration, (frames - 1) as nat) + duration
    }
}

/// What the platform's encoder hands out when it is asked for output.
pub enum OutputEvent {
    /// An access unit.
    Unit(Vec<u8>),
    /// A success without bytes that could be read.
    Nothing,
    /// Nothing more before the next input frame.
    NeedMoreInput,
    /// A failure, with the reason given.
    Failed(String),
    /// No output buffer could be made.
    NoBuffer(String),
    /// No sample could be made for the output buffer.
    NoSample(String),
    /// The output buffer could not be put into its sample.
    NotAdded(String),
}

/// What to do after an output event.
pub enum DrainStep {
    /// Ask again.
    Again,
    /// The output is drained.
    Finished,
    /// Give up, with this message.
    Failed(String),
}

/// State of a running encoder, apart from the platform's own objects.
pub struct H264Encoder {
    /// Whether the codec takes properties.
    pub tunable: bool,
    /// Whether the codec allocates its output itself.
    pub provides_samples: bool,
    /// Bytes to allocate for an output buffer.
    pub output_min_size: u32,
    pub frame_duration_100ns: i64,
    pub next_pts_100ns: i64,
}

impl H264Encoder {
    /// State of an encoder that has been set up. `suggested_size` is what the codec
    /// asks for its output buffers; they get at least half a byte a pixel and at
    /// least 64 KiB.
    pub fn new(
        width: u32,
        height: u32,
        fps: u32,
        tunable: bool,
        provides_samples: bool,
        suggested_size: u32,
    ) -> (encoder: H264Encoder)
        requires
            width * height <= u32::MAX,
        ensures
            encoder.tunable == tunable,
            encoder.provides_samples == provides_samples,
            ({
                let half = width * height / 2;
                let least = if half > 65536 {
                    half
                } else {
                    65536
                };
                encoder.output_min_size == if suggested_size > least {
                    suggested_size as int
                } else {
                    least
                }
            }),
            encoder.frame_duration_100ns == 10_000_000int / at_least_one(fps) as int,
            encoder.output_min_size == output_size(width * height, suggested_size as int),
            encoder.frame_duration_100ns == duration_of(fps),
            encoder.next_pts_100ns == 0,
    {
        let half: u32 = width * height / 2;
        let least: u32 = if half > 65536 {
            half
        } else {
            65536
        };
        let output_min_size: u32 = if suggested_size > least {
            suggested_size
        } else {
            least
        };
        let frame_duration: u32 = 10_000_000 / frames_per_second(fps);
        H264Encoder {
            tunable,
            provides_samples,
            output_min_size,
            frame_duration_100ns: frame_duration as i64,
            next_pts_100ns: 0,
        }
    }

    /// Properties to set for a new target bit rate.
    pub fn set_bitrate(&self, bps: u32) -> (properties: Vec<CodecProperty>)
        ensures
            properties@ == if self.tunable {
                seq![CodecProperty::MeanBitRate(bps)]
            } else {
                Seq::empty()
            },
    {
        let mut properties: Vec<CodecProperty> = Vec::new();
        if self.tunable {
            properties.push(CodecProperty::MeanBitRate(bps));
        }
        properties
    }

    /// Properties to set to have the next frame encoded as a key frame.
    pub fn request_keyframe(&self) -> (properties: Vec<CodecProperty>)
        ensures
            properties@ == if self.tunable {
                seq![CodecProperty::ForceKeyFrame(true)]
            } else {
                Seq::empty()
            },
    {
        let mut properties: Vec<CodecProperty> = Vec::new();
        if self.tunable {
            properties.push(CodecProperty::ForceKeyFrame(true));
        }
        properties
    }

    /// Timing of the frame that is encoded next.
    pub fn timing(&self) -> (timing: FrameTiming)
        ensures
            timing.pts_100ns == self.next_pts_100ns,
            timing.duration_100ns == self.frame_duration_100ns,
    {
        FrameTiming {
            pts_100ns: self.next_pts_100ns,
            duration_100ns: self.frame_duration_100ns,
        }
    }

    /// Takes the outcome of a call that hands a frame to the codec, and gives the next
    /// call, or the error that ends it. Once a sample has its time and its duration, the
    /// next frame follows without a gap.
    pub fn encode(&mut self, step: FeedStep, outcome: Result<(), String>) -> (next: Result<
        FeedStep,
        String,
    >)
        requires
            step is SetDuration && outcome is Ok ==> i64::MIN <= old(self).next_pts_100ns + old(
                self,
            ).frame_duration_100ns <= i64::MAX,
        ensures
            match outcome {
                Ok(_) => next is Ok && feed_rank(next->Ok_0) == if step is Fed {
                    8
                } else {
                    feed_rank(step) + 1
                },
                Err(why) => next is Err && next->Err_0@ == failure_text(feed_name(step), why@),
            },
            *final(self) == if step is SetDuration && outcome is Ok {
                H264Encoder {
                    next_pts_100ns: (old(self).next_pts_100ns
                        + old(self).frame_duration_100ns) as i64,
                    ..*old(self)
                }
            } else {
                *old(self)
            },
            step is SetDuration && outcome is Ok ==> final(self).next_pts_100ns == pts_of(
                old(self).next_pts_100ns as int,
                old(self).frame_duration_100ns as int,
                1,
            ),
    {
        proof {
            reveal_with_fuel(pts_of, 2);
        }
        if let Err(why) = outcome {
            return Err(call_error(feed_call(step), why.as_str()));
        }
        match step {
            FeedStep::CreateBuffer => Ok(FeedStep::Lock),
            FeedStep::Lock => Ok(FeedStep::SetLength),
            FeedStep::SetLength => Ok(FeedStep::CreateSample),
            FeedStep::CreateSample => Ok(FeedStep::AddBuffer),
            FeedStep::AddBuffer => Ok(FeedStep::SetTime),
            FeedStep::SetTime => Ok(FeedStep::SetDuration),
            FeedStep::SetDuration => {
                self.next_pts_100ns = self.next_pts_100ns + self.frame_duration_100ns;
                Ok(FeedStep::ProcessInput)
            },
            FeedStep::ProcessInput => Ok(FeedStep::Fed),
            FeedStep::Fed => Ok(FeedStep::Fed),
        }
    }

    /// Bytes of the output buffer to allocate, where the codec does not bring its own.
    pub fn output_buffer(&self) -> (out: Option<u32>)
        ensures
            out == if self.provides_samples {
                None
            } else {
                Some(self.output_min_size)
            },
    {
        if self.provides_samples {
            None
        } else {
            Some(self.output_min_size)
        }
    }
}

/// The calls that hand a frame to the codec, in the order in which they are made.
#[derive(Clone, Copy, PartialEq, Eq, Debug, Structural)]
pub enum FeedStep {
    CreateBuffer,
    Lock,
    SetLength,
    CreateSample,
    AddBuffer,
    SetTime,
    SetDuration,
    ProcessInput,
    Fed,
}

/// Position of a call in that order.
pub open spec fn feed_rank(step: FeedStep) -> int {
    match step {
        FeedStep::CreateBuffer => 0,
        FeedStep::Lock => 1,
        FeedStep::SetLength => 2,
        FeedStep::CreateSample => 3,
        FeedStep::AddBuffer => 4,
        FeedStep::SetTime => 5,
        FeedStep::SetDuration => 6,
        FeedStep::ProcessInput => 7,
        FeedStep::Fed => 8,
    }
}

/// Name of a call, as error messages give it.
pub open spec fn feed_name(step: FeedStep) -> Seq<char> {
    match step {
        FeedStep::CreateBuffer => "MFCreateMemoryBuffer"@,
        FeedStep::Lock => "Lock"@,
        FeedStep::SetLength => "SetCurrentLength"@,
        FeedStep::CreateSample => "MFCreateSample"@,
        FeedStep::AddBuffer => "AddBuffer"@,
        FeedStep::SetTime => "SetSampleTime"@,
        FeedStep::SetDuration => "SetSampleDuration"@,
        FeedStep::ProcessInput => "ProcessInput"@,
        FeedStep::Fed => ""@,
    }
}

fn feed_call(step: FeedStep) -> (name: &'static str)
    ensures
        name@ == feed_name(step),
{
    match step {
        FeedStep::CreateBuffer => "MFCreateMemoryBuffer",
        FeedStep::Lock => "Lock",
        FeedStep::SetLength => "SetCurrentLength",
        FeedStep::CreateSample => "MFCreateSample",
        FeedStep::AddBuffer => "AddBuffer",
        FeedStep::SetTime => "SetSampleTime",
        FeedStep::SetDuration => "SetSampleDuration",
        FeedStep::ProcessInput => "ProcessInput",
        FeedStep::Fed => "",
    }
}

/// Bytes of a frame that a buffer with room for `room` bytes takes.
pub fn copied_len(len: usize, room: u32) -> (out: usize)
    ensures
        out == if len <= room {
            len as int
        } else {
            room as int
        },
{
    if len <= room as usize {
        len
    } else {
        room as usize
    }
}

/// The frames that have been collected after an output event.
pub open spec fn drained(out: Seq<EncodedFrame>, event: OutputEvent) -> Seq<EncodedFrame> {
    match event {
        OutputEvent::Unit(data) => out.push(
            EncodedFrame { data, keyframe: is_key_frame(data@) },
        ),
        _ => out,
    }
}

/// Collects one output event: an access unit is added to the frames, marked as a key
/// frame where it holds an IDR slice or a sequence parameter set.
pub fn drain_output(out: &mut Vec<EncodedFrame>, event: OutputEvent) -> (step: DrainStep)
    ensures
        match event {
            OutputEvent::Unit(data) => {
                &&& step is Again
                &&& final(out)@ == old(out)@.push(
                    EncodedFrame { data, keyframe: is_key_frame(data@) },
                )
            },
            OutputEvent::Nothing => step is Again && final(out)@ == old(out)@,
            OutputEvent::NeedMoreInput => step is Finished && final(out)@ == old(out)@,
            OutputEvent::Failed(why) => {
                &&& step is Failed
                &&& step->Failed_0@ == failure_text("ProcessOutput"@, why@)
                &&& final(out)@ == old(out)@
            },
            OutputEvent::NoBuffer(why) => {
                &&& step is Failed
                &&& step->Failed_0@ == failure_text("MFCreateMemoryBuffer(out)"@, why@)
                &&& final(out)@ == old(out)@
            },
            OutputEvent::NoSample(why) => {
                &&& step is Failed
                &&& step->Failed_0@ == failure_text("MFCreateSample(out)"@, why@)
                &&& final(out)@ == old(out)@
            },
            OutputEvent::NotAdded(why) => {
                &&& step is Failed
                &&& step->Failed_0@ == failure_text("AddBuffer(out)"@, why@)
                &&& final(out)@ == old(out)@
            },
        },
        final(out)@ == drained(old(out)@, event),
{
    match event {
        OutputEvent::Unit(data) => {
            let keyframe = contains_idr_or_sps(data.as_slice());
            out.push(EncodedFrame { data, keyframe });
            DrainStep::Again
        },
        OutputEvent::Nothing => DrainStep::Again,
        OutputEvent::NeedMoreInput => DrainStep::Finished,
        OutputEvent::Failed(why) => DrainStep::Failed(call_error("ProcessOutput", why.as_str())),
        OutputEvent::NoBuffer(why) => DrainStep::Failed(
            call_error("MFCreateMemoryBuffer(out)", why.as_str()),
        ),
        OutputEvent::NoSample(why) => DrainStep::Failed(
            call_error("MFCreateSample(out)", why.as_str()),
        ),
        OutputEvent::NotAdded(why) => DrainStep::Failed(
            call_error("AddBuffer(out)", why.as_str()),
        ),
    }
}

// ---- Laws of encoding ------------------------------------------------------

/// An access unit is a key frame where a start code in it is followed by a header of type 5 or
/// 7, wherever that is and whatever stands around it, and nowhere else. The type is the lower
/// five bits of the header.
pub proof fn law_a_key_unit_makes_a_key_frame(
    before: Seq<u8>,
    header: u8,
    after: Seq<u8>,
    data: Seq<u8>,
)
    ensures
        header % 32 == 5 || header % 32 == 7 ==> is_key_frame(
            before + seq![0u8, 0u8, 1u8, header] + after,
        ),
        is_key_frame(data) ==> exists|i: int|
            #![trigger data.subrange(i, i + 4)]
            0 <= i <= data.len() - 4 && data.subrange(i, i + 4) == seq![0u8, 0, 1, data[i + 3]] && (
            data[i + 3] % 32 == 5 || data[i + 3] % 32 == 7),
{
    let unit = before + seq![0u8, 0u8, 1u8, header] + after;
    let n = before.len() as int;
    assert(header & 0x1F == header % 32) by (bit_vector);
    if header % 32 == 5 || header % 32 == 7 {
        assert(unit[n] == 0 && unit[n + 1] == 0 && unit[n + 2] == 1 && unit[n + 3] == header);
        assert(key_unit_at(unit, n));
    }
    if is_key_frame(data) {
        let i = choose|i: int| key_unit_at(data, i);
        let t = data[i + 3];
        assert(t & 0x1F == t % 32) by (bit_vector);
        assert(data.subrange(i, i + 4) =~= seq![0u8, 0, 1, data[i + 3]]);
    }
}

/// A video format says what it is: width and height can be read off its frame size, and the
/// frames a second off its rate, which are for one second. The bit rate and the profile are
/// there where they are given.
pub proof fn law_a_format_holds_its_numbers(
    coded: bool,
    width: u32,
    height: u32,
    fps: u32,
    bitrate: Option<u32>,
    profile: Option<u32>,
)
    ensures
        ({
            let list = video_attributes(coded, width, height, fps, bitrate, profile);
            &&& list[0] is Video
            &&& list[1] is CodedH264 <==> coded
            &&& list[1] is RawNv12 <==> !coded
            &&& list[2] is FrameSize
            &&& list[2]->FrameSize_0 / 0x1_0000_0000 == width
            &&& list[2]->FrameSize_0 % 0x1_0000_0000 == height
            &&& list[3] is FrameRate
            &&& list[3]->FrameRate_0 / 0x1_0000_0000 == fps
            &&& list[3]->FrameRate_0 % 0x1_0000_0000 == 1
            &&& list[4] is Progressive
            &&& list[5] is SamplesIndependent
            &&& list.len() == 6 + (if bitrate is Some {
                1int
            } else {
                0int
            }) + (if profile is Some {
                1int
            } else {
                0int
            })
            &&& bitrate is Some ==> list[6] == VideoAttribute::AverageBitrate(bitrate->0)
            &&& profile is Some ==> list.last() == VideoAttribute::Profile(profile->0)
        }),
{
}

/// The calls that bring an encoder up come in their order, and each leads to the next one.
pub proof fn law_the_calls_follow_each_other(noted: Seq<char>)
    ensures
        setup_outcome(SetupStep::InitCom, noted, SetupEvent::Done) == Ok::<int, Seq<char>>(
            step_rank(SetupStep::StartPlatform),
        ),
        setup_outcome(SetupStep::StartPlatform, noted, SetupEvent::Done) == Ok::<int, Seq<char>>(
            step_rank(SetupStep::Enumerate),
        ),
        setup_outcome(SetupStep::DescribeOutput, noted, SetupEvent::Done) == Ok::<int, Seq<char>>(
            step_rank(SetupStep::SetOutput),
        ),
        setup_outcome(SetupStep::SetOutput, noted, SetupEvent::Done) == Ok::<int, Seq<char>>(
            step_rank(SetupStep::Tune),
        ),
        setup_outcome(SetupStep::Tune, noted, SetupEvent::Done) == Ok::<int, Seq<char>>(
            step_rank(SetupStep::DescribeInput),
        ),
        setup_outcome(SetupStep::DescribeInput, noted, SetupEvent::Done) == Ok::<int, Seq<char>>(
            step_rank(SetupStep::SetInput),
        ),
        setup_outcome(SetupStep::SetInput, noted, SetupEvent::Done) == Ok::<int, Seq<char>>(
            step_rank(SetupStep::BeginStreaming),
        ),
        setup_outcome(SetupStep::BeginStreaming, noted, SetupEvent::Done) == Ok::<int, Seq<char>>(
            step_rank(SetupStep::StartStream),
        ),
        setup_outcome(SetupStep::StartStream, noted, SetupEvent::Done) == Ok::<int, Seq<char>>(
            step_rank(SetupStep::QueryOutput),
        ),
        setup_outcome(SetupStep::QueryOutput, noted, SetupEvent::Done) == Ok::<int, Seq<char>>(
            step_rank(SetupStep::Ready),
        ),
        forall|count: u32|
            count > 0 ==> #[trigger] setup_outcome(
                SetupStep::Enumerate,
                noted,
                SetupEvent::Encoders(count),
            ) == Ok::<int, Seq<char>>(step_rank(SetupStep::Activate)),
        setup_outcome(
            SetupStep::Activate,
            noted,
            SetupEvent::Tried(Candidate::Synchronous),
        ) == Ok::<int, Seq<char>>(step_rank(SetupStep::DescribeOutput)),
        setup_outcome(
            SetupStep::Activate,
            noted,
            SetupEvent::Tried(Candidate::Asynchronous),
        ) == Ok::<int, Seq<char>>(step_rank(SetupStep::Activate)),
        forall|why: String|
            #[trigger] setup_outcome(
                SetupStep::Activate,
                noted,
                SetupEvent::Tried(Candidate::Failed(why)),
            ) == Ok::<int, Seq<char>>(step_rank(SetupStep::Activate)),
        step_rank(SetupStep::InitCom)
            < step_rank(SetupStep::StartPlatform)
            < step_rank(SetupStep::Enumerate)
            < step_rank(SetupStep::Activate)
            < step_rank(SetupStep::DescribeOutput)
            < step_rank(SetupStep::SetOutput)
            < step_rank(SetupStep::Tune)
            < step_rank(SetupStep::DescribeInput)
            < step_rank(SetupStep::SetInput)
            < step_rank(SetupStep::BeginStreaming)
            < step_rank(SetupStep::StartStream)
            < step_rank(SetupStep::QueryOutput)
            < step_rank(SetupStep::Ready),
{
}

/// A call that fails ends the setup, and the message names the call and says what went wrong.
/// Without an encoder on the list the setup ends at once.
pub proof fn law_a_failed_call_is_named(step: SetupStep, noted: Seq<char>, why: String)
    ensures
        setup_outcome(step, noted, SetupEvent::Failed(why)) is Err,
        step is InitCom ==> setup_outcome(step, noted, SetupEvent::Failed(why))
            == Err::<int, Seq<char>>("CoInitializeEx"@ + seq![':', ' '] + why@),
        step is StartPlatform ==> setup_outcome(step, noted, SetupEvent::Failed(why))
            == Err::<int, Seq<char>>("MFStartup"@ + seq![':', ' '] + why@),
        step is Enumerate ==> setup_outcome(step, noted, SetupEvent::Failed(why))
            == Err::<int, Seq<char>>("MFTEnumEx"@ + seq![':', ' '] + why@),
        step is Activate ==> setup_outcome(step, noted, SetupEvent::Failed(why))
            == Err::<int, Seq<char>>("ActivateObject"@ + seq![':', ' '] + why@),
        step is DescribeOutput ==> setup_outcome(step, noted, SetupEvent::Failed(why))
            == Err::<int, Seq<char>>("output media type"@ + seq![':', ' '] + why@),
        step is SetOutput ==> setup_outcome(step, noted, SetupEvent::Failed(why))
            == Err::<int, Seq<char>>("SetOutputType"@ + seq![':', ' '] + why@),
        step is Tune ==> setup_outcome(step, noted, SetupEvent::Failed(why))
            == Err::<int, Seq<char>>("ICodecAPI"@ + seq![':', ' '] + why@),
        step is DescribeInput ==> setup_outcome(step, noted, SetupEvent::Failed(why))
            == Err::<int, Seq<char>>("input media type"@ + seq![':', ' '] + why@),
        step is SetInput ==> setup_outcome(step, noted, SetupEvent::Failed(why))
            == Err::<int, Seq<char>>("SetInputType"@ + seq![':', ' '] + why@),
        step is BeginStreaming ==> setup_outcome(step, noted, SetupEvent::Failed(why))
            == Err::<int, Seq<char>>("BEGIN_STREAMING"@ + seq![':', ' '] + why@),
        step is StartStream ==> setup_outcome(step, noted, SetupEvent::Failed(why))
            == Err::<int, Seq<char>>("START_OF_STREAM"@ + seq![':', ' '] + why@),
        step is QueryOutput ==> setup_outcome(step, noted, SetupEvent::Failed(why))
            == Err::<int, Seq<char>>("GetOutputStreamInfo"@ + seq![':', ' '] + why@),
        setup_outcome(SetupStep::Enumerate, noted, SetupEvent::Encoders(0)) == Err::<int, Seq<char>>(
            "no hay ningun encoder H.264 disponible (MFTEnumEx devolvio 0)"@,
        ),
        noted.len() > 0 ==> setup_outcome(SetupStep::Activate, noted, SetupEvent::Exhausted)
            == Err::<int, Seq<char>>(noted),
        noted_after(noted, SetupEvent::Tried(Candidate::Failed(why))) == "ActivateObject"@ + seq![
            ':',
            ' ',
        ] + why@,
        noted_after(noted, SetupEvent::Tried(Candidate::Synchronous)) == noted,
        noted_after(noted, SetupEvent::Done) == noted,
{
    crate::text::law_failures_are_named(step_name(step), why@);
    crate::text::law_failures_are_named("ActivateObject"@, why@);
}

/// The calls that hand a frame to the codec come in their order, and each has its own name in
/// messages.
pub proof fn law_a_frame_is_handed_over_in_order()
    ensures
        feed_rank(FeedStep::CreateBuffer)
            < feed_rank(FeedStep::Lock)
            < feed_rank(FeedStep::SetLength)
            < feed_rank(FeedStep::CreateSample)
            < feed_rank(FeedStep::AddBuffer)
            < feed_rank(FeedStep::SetTime)
            < feed_rank(FeedStep::SetDuration)
            < feed_rank(FeedStep::ProcessInput)
            < feed_rank(FeedStep::Fed),
        feed_rank(FeedStep::Fed) - feed_rank(FeedStep::CreateBuffer) == 8,
        feed_name(FeedStep::CreateBuffer) == "MFCreateMemoryBuffer"@,
        feed_name(FeedStep::Lock) == "Lock"@,
        feed_name(FeedStep::SetLength) == "SetCurrentLength"@,
        feed_name(FeedStep::CreateSample) == "MFCreateSample"@,
        feed_name(FeedStep::AddBuffer) == "AddBuffer"@,
        feed_name(FeedStep::SetTime) == "SetSampleTime"@,
        feed_name(FeedStep::SetDuration) == "SetSampleDuration"@,
        feed_name(FeedStep::ProcessInput) == "ProcessInput"@,
{
}

/// Frames a second count as they are, but none at all counts as one.
pub proof fn law_no_rate_counts_as_one(fps: u32)
    ensures
        fps > 0 ==> at_least_one(fps) == fps,
        at_least_one(0) == 1,
{
}

/// Larger frames never get a lower level: up to the pixels of 1280 by 720 it is 3.1, up to
/// those of 1920 by 1080 it is 4.0, and beyond them 4.2.
pub proof fn law_levels_grow_with_the_frame(pixels: int, more: int)
    requires
        pixels <= more,
    ensures
        level_of(pixels) <= level_of(more),
        pixels <= 1280 * 720 ==> level_of(pixels) == 31,
        1280 * 720 < pixels <= 1920 * 1080 ==> level_of(pixels) == 40,
        1920 * 1080 < pixels ==> level_of(pixels) == 42,
{
}

/// Access units come out as they went in, one frame each, in their order; nothing else adds a
/// frame. A frame is marked as a key frame where a start code in it is followed by a header of
/// type 5 or 7.
pub proof fn law_units_come_out_as_frames(out: Seq<EncodedFrame>, data: Vec<u8>, event: OutputEvent)
    ensures
        ({
            let after = drained(out, OutputEvent::Unit(data));
            &&& after.len() == out.len() + 1
            &&& after.take(out.len() as int) == out
            &&& after.last().data == data
            &&& after.last().keyframe <==> exists|i: int|
                0 <= i < data@.len() - 3 && #[trigger] data@[i] == 0 && data@[i + 1] == 0 && data@[i
                    + 2] == 1 && (data@[i + 3] % 32 == 5 || data@[i + 3] % 32 == 7)
        }),
        !(event is Unit) ==> drained(out, event) == out,
{
    let after = drained(out, OutputEvent::Unit(data));
    assert(after.take(out.len() as int) =~= out);
    if after.last().keyframe {
        let i = choose|i: int| key_unit_at(data@, i);
        let t = data@[i + 3];
        assert(t & 0x1F == t % 32) by (bit_vector);
        assert(data@[i] == 0);
    }
    if exists|i: int|
        0 <= i < data@.len() - 3 && #[trigger] data@[i] == 0 && data@[i + 1] == 0 && data@[i + 2]
            == 1 && (data@[i + 3] % 32 == 5 || data@[i + 3] % 32 == 7) {
        let i = choose|i: int|
            0 <= i < data@.len() - 3 && #[trigger] data@[i] == 0 && data@[i + 1] == 0 && data@[i
                + 2] == 1 && (data@[i + 3] % 32 == 5 || data@[i + 3] % 32 == 7);
        let t = data@[i + 3];
        assert(t & 0x1F == t % 32) by (bit_vector);
        assert(key_unit_at(data@, i));
    }
}

/// Frames follow each other without a gap: each starts where the one before it ends, so that
/// the time stamp of a frame is as many durations from the start as frames lie before it.
pub proof fn law_frames_follow_without_a_gap(start: int, duration: int, frames: nat)
    ensures
        pts_of(start, duration, frames) == start + frames * duration,
    decreases frames,
{
    if frames > 0 {
        law_frames_follow_without_a_gap(start, duration, (frames - 1) as nat);
        assert((frames - 1) * duration + duration == frames * duration) by (nonlinear_arith);
    } else {
        assert(frames * duration == 0) by (nonlinear_arith)
            requires
                frames == 0,
        ;
    }
}

/// An output buffer is large enough for what the codec suggests, for half a byte a pixel and
/// for 64 KiB, and no larger than one of these asks for.
pub proof fn law_output_buffers_are_large_enough(pixels: int, suggested: int)
    requires
        0 <= pixels,
    ensures
        ({
            let size = output_size(pixels, suggested);
            &&& size >= suggested
            &&& size >= pixels / 2
            &&& size >= 64 * 1024
            &&& size == suggested || size == pixels / 2 || size == 64 * 1024
        }),
{
}

/// The frames of a second last a second together, but for less than a unit of 100 nanoseconds
/// each. Without a rate a frame lasts a second.
pub proof fn law_the_frames_of_a_second_fill_it(fps: u32)
    ensures
        fps > 0 ==> duration_of(fps) * fps <= 10_000_000 < (duration_of(fps) + 1) * fps,
        duration_of(0) == 10_000_000,
{
    if fps > 0 {
        let f = fps as int;
        let d = 10_000_000int / f;
        assert(d * f <= 10_000_000 < (d + 1) * f) by (nonlinear_arith)
            requires
                f > 0,
                d == 10_000_000int / f,
        ;
    }
}

} // verus!
