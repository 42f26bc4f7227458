//! What a player on GStreamer decides: which sources it takes, where it leads a
//! stream, and what it asks of the pipeline.

use crate::media::media_types;
use crate::media::media_types::{MediaSource, MediaType};
use crate::media::player::{MediaError, PlayerState};
use crate::scan;
use crate::text;
use vstd::prelude::*;

verus! {

/// What the pipeline is asked to become.
#[derive(Debug, PartialEq, Eq, Structural, Clone, Copy)]
pub enum Target {
    Playing,
    Paused,
    Null,
}

/// The sink that a new stream goes to.
#[derive(Debug, PartialEq, Eq, Structural, Clone, Copy)]
pub enum Route {
    Audio,
    Video,
    Nowhere,
}

/// A player. `N` is the type of a volume. Times are in nanoseconds.
pub struct GStreamerPlayer<N> {
    has_pipeline: bool,
    state: PlayerState,
    source: Option<MediaSource>,
    volume: N,
    current_time: u64,
    loop_playback: bool,
    muted: bool,
}

/// What a player is set to.
pub struct GStreamerView<N> {
    pub has_pipeline: bool,
    pub state: PlayerState,
    pub source: Option<MediaSource>,
    pub volume: N,
    pub current_time: u64,
    pub loop_playback: bool,
    pub muted: bool,
}

impl<N: Copy> View for GStreamerPlayer<N> {
    type V = GStreamerView<N>;

    closed spec fn view(&self) -> GStreamerView<N> {
        GStreamerView {
            has_pipeline: self.has_pipeline,
            state: self.state,
            source: self.source,
            volume: self.volume,
            current_time: self.current_time,
            loop_playback: self.loop_playback,
            muted: self.muted,
        }
    }
}

/// The error where the library is built without GStreamer.
pub fn not_enabled() -> (r: MediaError)
    ensures
        r is InitError,
        r->InitError_0@ == "GStreamer feature not enabled"@,
{
    MediaError::InitError("GStreamer feature not enabled".to_string())
}

/// Where a stream with these capabilities goes: to the sink of its kind, unless that
/// has a stream already.
pub fn route(caps: &str, audio_linked: bool, video_linked: bool) -> (r: Route)
    ensures
        r == if text::starts_with(caps@, "audio/"@) {
            if audio_linked {
                Route::Nowhere
            } else {
                Route::Audio
            }
        } else if text::starts_with(caps@, "video/"@) && !video_linked {
            Route::Video
        } else {
            Route::Nowhere
        },
{
    let chars = scan::chars_of(caps);
    if scan::begins_with(&chars, "audio/") {
        if audio_linked {
            Route::Nowhere
        } else {
            Route::Audio
        }
    } else if scan::begins_with(&chars, "video/") && !video_linked {
        Route::Video
    } else {
        Route::Nowhere
    }
}

/// What has to be done for a new pipeline.
#[derive(Debug, PartialEq, Eq, Structural, Clone, Copy)]
pub enum Step {
    MakeDecoder,
    MakeAudioSink,
    MakeVideoSink,
    AddElements,
    Start,
}

/// What a step is called where it fails.
pub open spec fn step_name(step: Step) -> Seq<char> {
    match step {
        Step::MakeDecoder => "uridecodebin: "@,
        Step::MakeAudioSink => "audio-sink: "@,
        Step::MakeVideoSink => "video-sink: "@,
        Step::AddElements => "add elements: "@,
        Step::Start => "start: "@,
    }
}

/// Whether this is the error where a step fails for the reason given. A pipeline that
/// is made and does not start is an error of playback.
pub open spec fn is_load_failure(e: MediaError, step: Step, reason: Seq<char>) -> bool {
    match step {
        Step::Start => e is PlaybackError && e->PlaybackError_0@ == step_name(step) + reason,
        _ => e is InitError && e->InitError_0@ == step_name(step) + reason,
    }
}

/// The error where a step fails for the reason given.
pub fn load_failure(step: Step, reason: &str) -> (r: MediaError)
    ensures
        is_load_failure(r, step, reason@),
{
    match step {
        Step::MakeDecoder => MediaError::InitError("uridecodebin: ".to_string().concat(reason)),
        Step::MakeAudioSink => MediaError::InitError("audio-sink: ".to_string().concat(reason)),
        Step::MakeVideoSink => MediaError::InitError("video-sink: ".to_string().concat(reason)),
        Step::AddElements => MediaError::InitError("add elements: ".to_string().concat(reason)),
        Step::Start => MediaError::PlaybackError("start: ".to_string().concat(reason)),
    }
}

/// The step behind a step, `None` behind the last one.
pub open spec fn following(step: Step) -> Option<Step> {
    match step {
        Step::MakeDecoder => Some(Step::MakeAudioSink),
        Step::MakeAudioSink => Some(Step::MakeVideoSink),
        Step::MakeVideoSink => Some(Step::AddElements),
        Step::AddElements => Some(Step::Start),
        Step::Start => None,
    }
}

/// The step that a new pipeline begins with.
pub fn first_step() -> (r: Step)
    ensures
        r == Step::MakeDecoder,
{
    Step::MakeDecoder
}

/// The step to be done next, `None` once the pipeline plays, or the error of a step that
/// failed.
pub fn next_step(step: Step, outcome: Result<(), String>) -> (r: Result<Option<Step>, MediaError>)
    ensures
        match outcome {
            Ok(_) => r == Ok::<Option<Step>, MediaError>(following(step)),
            Err(reason) => r is Err && is_load_failure(r->Err_0, step, reason@),
        },
{
    match outcome {
        Ok(_) => Ok(
            match step {
                Step::MakeDecoder => Some(Step::MakeAudioSink),
                Step::MakeAudioSink => Some(Step::MakeVideoSink),
                Step::MakeVideoSink => Some(Step::AddElements),
                Step::AddElements => Some(Step::Start),
                Step::Start => None,
            },
        ),
        Err(reason) => Err(load_failure(step, reason.as_str())),
    }
}

/// The step with the number `n`, counted from 0, where all steps before it succeed.
pub open spec fn step_at(n: nat) -> Option<Step>
    decreases n,
{
    if n == 0 {
        Some(Step::MakeDecoder)
    } else {
        match step_at((n - 1) as nat) {
            Some(step) => following(step),
            None => None,
        }
    }
}

/// A pipeline is made in five steps: the decoder, the two sinks, putting them together,
/// and the start.
pub proof fn law_five_steps(n: nat)
    ensures
        step_at(n) == if n == 0 {
            Some(Step::MakeDecoder)
        } else if n == 1 {
            Some(Step::MakeAudioSink)
        } else if n == 2 {
            Some(Step::MakeVideoSink)
        } else if n == 3 {
            Some(Step::AddElements)
        } else if n == 4 {
            Some(Step::Start)
        } else {
            None
        },
    decreases n,
{
    if n > 0 {
        law_five_steps((n - 1) as nat);
    }
}

/// The error where the pipeline does not become what it is asked to.
pub fn target_failure(reason: String) -> (r: MediaError)
    ensures
        r is PlaybackError,
        r->PlaybackError_0@ == reason@,
{
    MediaError::PlaybackError(reason)
}

/// What the pipeline is asked for, where there is one.
pub open spec fn asked(has_pipeline: bool, target: Target) -> Option<Target> {
    if has_pipeline {
        Some(target)
    } else {
        None
    }
}

impl<N: Copy> GStreamerPlayer<N> {
    /// An idle player at full volume, once GStreamer has started.
    pub fn new(started: Result<(), String>, full_volume: N) -> (r: Result<
        GStreamerPlayer<N>,
        MediaError,
    >)
        ensures
            match r {
                Ok(p) => started is Ok && p@ == (GStreamerView {
                    has_pipeline: false,
                    state: PlayerState::Idle,
                    source: None,
                    volume: full_volume,
                    current_time: 0,
                    loop_playback: false,
                    muted: false,
                }),
                Err(e) => started is Err && e is InitError && e->InitError_0@
                    == "GStreamer init failed: "@ + started->Err_0@,
            },
    {
        match started {
            Ok(_) => Ok(
                GStreamerPlayer {
                    has_pipeline: false,
                    state: PlayerState::Idle,
                    source: None,
                    volume: full_volume,
                    current_time: 0,
                    loop_playback: false,
                    muted: false,
                },
            ),
            Err(e) => Err(
                MediaError::InitError("GStreamer init failed: ".to_string().concat(e.as_str())),
            ),
        }
    }

    /// Takes a source and returns the URL that a new pipeline is to play. Only a URL
    /// can be played; any other source is kept all the same.
    pub fn load(&mut self, source: MediaSource) -> (r: Result<String, MediaError>)
        ensures
            final(self)@ == (GStreamerView {
                source: Some(source),
                state: PlayerState::Loading,
                ..old(self)@
            }),
            match r {
                Ok(url) => source is Url && url@ == source->Url_0@,
                Err(e) => !(source is Url) && e is UnsupportedType && e->UnsupportedType_0@
                    == "Only URL sources supported"@,
            },
    {
        let url: Option<String> = match &source {
            MediaSource::Url(url) => Some(url.clone()),
            _ => None,
        };
        self.source = Some(source);
        self.state = PlayerState::Loading;
        match url {
            Some(url) => Ok(url),
            None => Err(MediaError::UnsupportedType("Only URL sources supported".to_string())),
        }
    }

    /// Notes that a pipeline plays the source.
    pub fn pipeline_started(&mut self)
        ensures
            final(self)@ == (GStreamerView { has_pipeline: true, ..old(self)@ }),
    {
        self.has_pipeline = true;
    }

    fn ask(&self, target: Target) -> (r: Option<Target>)
        ensures
            r == asked(self@.has_pipeline, target),
    {
        if self.has_pipeline {
            Some(target)
        } else {
            None
        }
    }

    /// Plays. Returns what the pipeline is asked for, where there is one.
    pub fn play(&mut self) -> (r: Option<Target>)
        ensures
            final(self)@ == (GStreamerView { state: PlayerState::Playing, ..old(self)@ }),
            r == asked(old(self)@.has_pipeline, Target::Playing),
    {
        self.state = PlayerState::Playing;
        self.ask(Target::Playing)
    }

    /// Pauses. Returns what the pipeline is asked for, where there is one.
    pub fn pause(&mut self) -> (r: Option<Target>)
        ensures
            final(self)@ == (GStreamerView { state: PlayerState::Paused, ..old(self)@ }),
            r == asked(old(self)@.has_pipeline, Target::Paused),
    {
        self.state = PlayerState::Paused;
        self.ask(Target::Paused)
    }

    /// Stops. Returns what the pipeline is asked for, where there is one.
    pub fn stop(&mut self) -> (r: Option<Target>)
        ensures
            final(self)@ == (GStreamerView { state: PlayerState::Idle, ..old(self)@ }),
            r == asked(old(self)@.has_pipeline, Target::Null),
    {
        self.state = PlayerState::Idle;
        self.ask(Target::Null)
    }

    /// What the pipeline is asked for at the end, where there is one.
    pub fn shutdown(&self) -> (r: Option<Target>)
        ensures
            r == asked(self@.has_pipeline, Target::Null),
    {
        self.ask(Target::Null)
    }

    /// Notes the time that the pipeline went to. `reached` tells what came of the
    /// seek, `None` where there was no pipeline to ask.
    pub fn seek(&mut self, time_ns: u64, reached: Option<Result<(), String>>) -> (r: Result<
        (),
        MediaError,
    >)
        ensures
            match reached {
                Some(Ok(_)) => r is Ok && final(self)@ == (GStreamerView {
                    current_time: time_ns,
                    ..old(self)@
                }),
                Some(Err(e)) => r is Err && r->Err_0 is PlaybackError && r->Err_0->PlaybackError_0@
                    == e@ && final(self)@ == old(self)@,
                None => r is Ok && final(self)@ == old(self)@,
            },
    {
        match reached {
            Some(Ok(_)) => {
                self.current_time = time_ns;
                Ok(())
            },
            Some(Err(e)) => Err(MediaError::PlaybackError(e)),
            None => Ok(()),
        }
    }

    /// Sets the volume, which the caller has kept within its range.
    pub fn set_volume(&mut self, volume: N) -> (r: Result<(), MediaError>)
        ensures
            r is Ok,
            final(self)@ == (GStreamerView { volume, ..old(self)@ }),
    {
        self.volume = volume;
        Ok(())
    }

    pub fn set_muted(&mut self, muted: bool) -> (r: Result<(), MediaError>)
        ensures
            r is Ok,
            final(self)@ == (GStreamerView { muted, ..old(self)@ }),
    {
        self.muted = muted;
        Ok(())
    }

    pub fn set_loop(&mut self, looping: bool) -> (r: Result<(), MediaError>)
        ensures
            r is Ok,
            final(self)@ == (GStreamerView { loop_playback: looping, ..old(self)@ }),
    {
        self.loop_playback = looping;
        Ok(())
    }

    pub fn get_state(&self) -> (r: PlayerState)
        ensures
            r == self@.state,
    {
        self.state.clone()
    }

    /// The time in nanoseconds: where the pipeline stands, if it tells, else where the
    /// last seek went.
    pub fn get_current_time(&self, position: Option<u64>) -> (r: u64)
        ensures
            r == match position {
                Some(p) => p,
                None => self@.current_time,
            },
    {
        match position {
            Some(p) => p,
            None => self.current_time,
        }
    }

    /// The duration in nanoseconds, if the pipeline tells it, else 0.
    pub fn get_duration(&self, duration: Option<u64>) -> (r: u64)
        ensures
            r == match duration {
                Some(d) => d,
                None => 0,
            },
    {
        match duration {
            Some(d) => d,
            None => 0,
        }
    }

    pub fn get_volume(&self) -> (r: N)
        ensures
            r == self@.volume,
    {
        self.volume
    }

    pub fn is_muted(&self) -> (r: bool)
        ensures
            r == self@.muted,
    {
        self.muted
    }

    pub fn is_looping(&self) -> (r: bool)
        ensures
            r == self@.loop_playback,
    {
        self.loop_playback
    }

    /// `"maybe"` for a MIME type that may be played, and nothing for any other.
    pub fn can_play_type(mime: &str) -> (r: &'static str)
        ensures
            r@ == if media_types::playable(mime@) {
                "maybe"@
            } else {
                ""@
            },
    {
        MediaType::can_play_type(mime)
    }
}

/// A step that fails is told by its name and the reason. All but the start are errors of
/// making the pipeline, the start is one of playback.
pub proof fn law_failures_name_their_step(e: MediaError, reason: Seq<char>)
    ensures
        is_load_failure(e, Step::MakeDecoder, reason) <==> e is InitError && e->InitError_0@
            == "uridecodebin: "@ + reason,
        is_load_failure(e, Step::MakeAudioSink, reason) <==> e is InitError && e->InitError_0@
            == "audio-sink: "@ + reason,
        is_load_failure(e, Step::MakeVideoSink, reason) <==> e is InitError && e->InitError_0@
            == "video-sink: "@ + reason,
        is_load_failure(e, Step::AddElements, reason) <==> e is InitError && e->InitError_0@
            == "add elements: "@ + reason,
        is_load_failure(e, Step::Start, reason) <==> e is PlaybackError && e->PlaybackError_0@
            == "start: "@ + reason,
{
}

/// A pipeline that is there is asked for just what is wanted, and one that is not there
/// for nothing.
pub proof fn law_pipeline_is_asked(target: Target)
    ensures
        asked(true, target) == Some(target),
        asked(false, target) is None,
{
}

} // verus!
