//! A media player without a backend: its state and its settings.

use crate::media::media_types;
use crate::media::media_types::{MediaSource, MediaType};
use vstd::prelude::*;

verus! {

#[derive(Debug, PartialEq)]
pub enum PlayerState {
    Idle,
    Loading,
    Playing,
    Paused,
    Buffering,
    Ended,
    Error(String),
}

impl Clone for PlayerState {
    fn clone(&self) -> (r: PlayerState)
        ensures
            r == *self,
    {
        match self {
            PlayerState::Idle => PlayerState::Idle,
            PlayerState::Loading => PlayerState::Loading,
            PlayerState::Playing => PlayerState::Playing,
            PlayerState::Paused => PlayerState::Paused,
            PlayerState::Buffering => PlayerState::Buffering,
            PlayerState::Ended => PlayerState::Ended,
            PlayerState::Error(s) => PlayerState::Error(s.clone()),
        }
    }
}

#[derive(Debug)]
pub enum MediaError {
    InitError(String),
    UnsupportedType(String),
    PlaybackError(String),
    NetworkError(String),
}

impl MediaError {
    /// What the error says.
    pub fn message(&self) -> (r: String)
        ensures
            r@ == match self {
                MediaError::InitError(s) => "Failed to initialize media backend: "@ + s@,
                MediaError::UnsupportedType(s) => "Unsupported media type: "@ + s@,
                MediaError::PlaybackError(s) => "Playback error: "@ + s@,
                MediaError::NetworkError(s) => "Network error: "@ + s@,
            },
    {
        match self {
            MediaError::InitError(s) => "Failed to initialize media backend: ".to_string().concat(
                s.as_str(),
            ),
            MediaError::UnsupportedType(s) => "Unsupported media type: ".to_string().concat(
                s.as_str(),
            ),
            MediaError::PlaybackError(s) => "Playback error: ".to_string().concat(s.as_str()),
            MediaError::NetworkError(s) => "Network error: ".to_string().concat(s.as_str()),
        }
    }
}

/// A player. `N` is the type of a volume and of a time in seconds.
pub struct MediaPlayer<N> {
    state: PlayerState,
    source: Option<MediaSource>,
    volume: N,
    current_time: N,
    duration: N,
    loop_playback: bool,
    muted: bool,
}

/// What a player is set to.
pub struct PlayerView<N> {
    pub state: PlayerState,
    pub source: Option<MediaSource>,
    pub volume: N,
    pub current_time: N,
    pub duration: N,
    pub loop_playback: bool,
    pub muted: bool,
}

impl<N: Copy> View for MediaPlayer<N> {
    type V = PlayerView<N>;

    closed spec fn view(&self) -> PlayerView<N> {
        PlayerView {
            state: self.state,
            source: self.source,
            volume: self.volume,
            current_time: self.current_time,
            duration: self.duration,
            loop_playback: self.loop_playback,
            muted: self.muted,
        }
    }
}

impl<N: Copy> MediaPlayer<N> {
    /// An idle player at full volume, at the start of nothing.
    pub fn new(full_volume: N, zero: N) -> (r: MediaPlayer<N>)
        ensures
            r@ == (PlayerView {
                state: PlayerState::Idle,
                source: None,
                volume: full_volume,
                current_time: zero,
                duration: zero,
                loop_playback: false,
                muted: false,
            }),
    {
        MediaPlayer {
            state: PlayerState::Idle,
            source: None,
            volume: full_volume,
            current_time: zero,
            duration: zero,
            loop_playback: false,
            muted: false,
        }
    }

    /// Takes a source, which it starts to load.
    pub fn load(&mut self, source: MediaSource) -> (r: Result<(), MediaError>)
        ensures
            r is Ok,
            final(self)@ == (PlayerView {
                source: Some(source),
                state: PlayerState::Loading,
                ..old(self)@
            }),
    {
        self.source = Some(source);
        self.state = PlayerState::Loading;
        Ok(())
    }

    pub fn play(&mut self) -> (r: Result<(), MediaError>)
        ensures
            r is Ok,
            final(self)@ == (PlayerView { state: PlayerState::Playing, ..old(self)@ }),
    {
        self.state = PlayerState::Playing;
        Ok(())
    }

    pub fn pause(&mut self) -> (r: Result<(), MediaError>)
        ensures
            r is Ok,
            final(self)@ == (PlayerView { state: PlayerState::Paused, ..old(self)@ }),
    {
        self.state = PlayerState::Paused;
        Ok(())
    }

    pub fn stop(&mut self) -> (r: Result<(), MediaError>)
        ensures
            r is Ok,
            final(self)@ == (PlayerView { state: PlayerState::Idle, ..old(self)@ }),
    {
        self.state = PlayerState::Idle;
        Ok(())
    }

    pub fn seek(&mut self, time: N) -> (r: Result<(), MediaError>)
        ensures
            r is Ok,
            final(self)@ == (PlayerView { current_time: time, ..old(self)@ }),
    {
        self.current_time = time;
        Ok(())
    }

    /// Sets the volume, which the caller has kept within its range.
    pub fn set_volume(&mut self, volume: N) -> (r: Result<(), MediaError>)
        ensures
            r is Ok,
            final(self)@ == (PlayerView { volume, ..old(self)@ }),
    {
        self.volume = volume;
        Ok(())
    }

    pub fn set_muted(&mut self, muted: bool) -> (r: Result<(), MediaError>)
        ensures
            r is Ok,
            final(self)@ == (PlayerView { muted, ..old(self)@ }),
    {
        self.muted = muted;
        Ok(())
    }

    pub fn set_loop(&mut self, looping: bool) -> (r: Result<(), MediaError>)
        ensures
            r is Ok,
            final(self)@ == (PlayerView { loop_playback: looping, ..old(self)@ }),
    {
        self.loop_playback = looping;
        Ok(())
    }

    pub fn get_state(&self) -> (r: PlayerState)
        ensures
            r == self@.state,
    {
        self.state.clone()
    }

    pub fn get_current_time(&self) -> (r: N)
        ensures
            r == self@.current_time,
    {
        self.current_time
    }

    pub fn get_duration(&self) -> (r: N)
        ensures
            r == self@.duration,
    {
        self.duration
    }

    pub fn get_volume(&self) -> (r: N)
        ensures
            r == self@.volume,
    {
        self.volume
    }

    pub fn is_muted(&self) -> (r: bool)
        ensures
            r == self@.muted,
    {
        self.muted
    }

    pub fn is_looping(&self) -> (r: bool)
        ensures
            r == self@.loop_playback,
    {
        self.loop_playback
    }

    /// `"maybe"` for a MIME type that may be played, and nothing for any other.
    pub fn can_play_type(mime: &str) -> (r: &'static str)
        ensures
            r@ == if media_types::playable(mime@) {
                "maybe"@
            } else {
                ""@
            },
    {
        MediaType::can_play_type(mime)
    }
}

} // verus!
