use obscura::media::gstreamer_player::{first_step, load_failure, next_step, not_enabled};
use obscura::media::gstreamer_player::{route, target_failure};
use obscura::media::gstreamer_player::{GStreamerPlayer, Route, Step, Target};
use obscura::media::media_types::{MediaSource, MediaType};
use obscura::media::player::{MediaError, MediaPlayer, PlayerState};

#[test]
fn mime_types_have_a_kind() {
    assert!(matches!(MediaType::from_mime("video/mp4"), MediaType::Video));
    assert!(matches!(MediaType::from_mime("audio/x"), MediaType::Audio));
    assert!(matches!(MediaType::from_mime("application/pdf"), MediaType::Application));
    assert!(matches!(MediaType::from_mime("video"), MediaType::Unknown));
    assert!(matches!(MediaType::from_mime(""), MediaType::Unknown));
}

#[test]
fn some_types_may_be_played() {
    for mime in [
        "video/mp4", "video/webm", "video/ogg", "video/quicktime", "audio/mpeg", "audio/ogg",
        "audio/wav", "audio/webm", "audio/aac",
    ] {
        assert_eq!(MediaType::can_play_type(mime), "maybe");
        assert_eq!(MediaPlayer::<f64>::can_play_type(mime), "maybe");
        assert_eq!(GStreamerPlayer::<f64>::can_play_type(mime), "maybe");
    }
    for mime in ["", "video/avi", "VIDEO/MP4", "video/mp4 "] {
        assert_eq!(MediaType::can_play_type(mime), "");
    }
}

#[test]
fn players_keep_their_settings() {
    let mut p = MediaPlayer::new(1.0, 0.0);
    assert_eq!(p.get_state(), PlayerState::Idle);
    assert_eq!(p.get_volume(), 1.0);
    assert_eq!(p.get_duration(), 0.0);
    p.load(MediaSource::Blob("b".to_string())).unwrap();
    assert_eq!(p.get_state(), PlayerState::Loading);
    p.play().unwrap();
    assert_eq!(p.get_state(), PlayerState::Playing);
    p.pause().unwrap();
    assert_eq!(p.get_state(), PlayerState::Paused);
    p.seek(2.5).unwrap();
    assert_eq!(p.get_current_time(), 2.5);
    p.set_volume(0.5).unwrap();
    assert_eq!(p.get_volume(), 0.5);
    p.set_muted(true).unwrap();
    p.set_loop(true).unwrap();
    assert!(p.is_muted() && p.is_looping());
    p.stop().unwrap();
    assert_eq!(p.get_state(), PlayerState::Idle);
    assert_eq!(p.get_current_time(), 2.5);
}

#[test]
fn media_errors_say_what_they_are() {
    let s = || "x".to_string();
    assert_eq!(MediaError::InitError(s()).message(), "Failed to initialize media backend: x");
    assert_eq!(MediaError::UnsupportedType(s()).message(), "Unsupported media type: x");
    assert_eq!(MediaError::PlaybackError(s()).message(), "Playback error: x");
    assert_eq!(MediaError::NetworkError(s()).message(), "Network error: x");
    assert!(matches!(not_enabled(), MediaError::InitError(e) if e == "GStreamer feature not enabled"));
}

#[test]
fn sources_are_copied_with_their_path() {
    let source = MediaSource::File(std::path::PathBuf::from("/tmp/a.mp4"));
    match source.clone() {
        MediaSource::File(p) => assert_eq!(p, std::path::PathBuf::from("/tmp/a.mp4")),
        _ => panic!(),
    }
}

#[test]
fn only_urls_start_a_pipeline() {
    match GStreamerPlayer::new(Err("no plugins".to_string()), 1.0) {
        Err(MediaError::InitError(e)) => assert_eq!(e, "GStreamer init failed: no plugins"),
        _ => panic!(),
    }
    let mut p = GStreamerPlayer::new(Ok(()), 1.0).ok().unwrap();
    assert_eq!(p.play(), None);
    match p.load(MediaSource::DataUri("data:".to_string())) {
        Err(MediaError::UnsupportedType(e)) => assert_eq!(e, "Only URL sources supported"),
        _ => panic!(),
    }
    assert_eq!(p.get_state(), PlayerState::Loading);
    assert_eq!(p.load(MediaSource::Url("https://a".to_string())).ok().unwrap(), "https://a");
    p.pipeline_started();
    assert_eq!(p.play(), Some(Target::Playing));
    assert_eq!(p.pause(), Some(Target::Paused));
    assert_eq!(p.get_state(), PlayerState::Paused);
    assert_eq!(p.stop(), Some(Target::Null));
    assert_eq!(p.shutdown(), Some(Target::Null));
    assert_eq!(p.get_state(), PlayerState::Idle);
}

#[test]
fn times_come_from_the_pipeline_first() {
    let mut p = GStreamerPlayer::new(Ok(()), 1.0).ok().unwrap();
    p.seek(5, None).ok().unwrap();
    assert_eq!(p.get_current_time(None), 0);
    p.seek(7, Some(Ok(()))).ok().unwrap();
    assert_eq!(p.get_current_time(None), 7);
    assert_eq!(p.get_current_time(Some(9)), 9);
    match p.seek(8, Some(Err("lost".to_string()))) {
        Err(e) => assert_eq!(e.message(), "Playback error: lost"),
        Ok(_) => panic!(),
    }
    assert_eq!(p.get_current_time(None), 7);
    assert_eq!(p.get_duration(None), 0);
    assert_eq!(p.get_duration(Some(3)), 3);
    p.set_volume(0.25).ok().unwrap();
    p.set_muted(true).ok().unwrap();
    p.set_loop(true).ok().unwrap();
    assert_eq!(p.get_volume(), 0.25);
    assert!(p.is_muted() && p.is_looping());
}

#[test]
fn streams_go_to_their_sink() {
    assert_eq!(route("audio/x-raw", false, true), Route::Audio);
    assert_eq!(route("audio/x-raw", true, false), Route::Nowhere);
    assert_eq!(route("video/x-raw", true, false), Route::Video);
    assert_eq!(route("video/x-raw", false, true), Route::Nowhere);
    assert_eq!(route("text/plain", false, false), Route::Nowhere);
}

#[test]
fn steps_that_fail_are_named() {
    let text = |step| load_failure(step, "gone").message();
    let init = "Failed to initialize media backend: ";
    assert_eq!(text(Step::MakeDecoder), format!("{init}uridecodebin: gone"));
    assert_eq!(text(Step::MakeAudioSink), format!("{init}audio-sink: gone"));
    assert_eq!(text(Step::MakeVideoSink), format!("{init}video-sink: gone"));
    assert_eq!(text(Step::AddElements), format!("{init}add elements: gone"));
    assert_eq!(text(Step::Start), "Playback error: start: gone");
    assert_eq!(target_failure("gone".to_string()).message(), "Playback error: gone");
}

#[test]
fn pipelines_are_made_in_five_steps() {
    let mut steps = vec![];
    let mut step = Some(first_step());
    while let Some(now) = step {
        steps.push(now);
        step = next_step(now, Ok(())).ok().unwrap();
    }
    assert_eq!(
        steps,
        vec![
            Step::MakeDecoder,
            Step::MakeAudioSink,
            Step::MakeVideoSink,
            Step::AddElements,
            Step::Start
        ]
    );
    match next_step(Step::AddElements, Err("no".to_string())) {
        Err(MediaError::InitError(e)) => assert_eq!(e, "add elements: no"),
        _ => panic!(),
    }
    match next_step(Step::Start, Err("no".to_string())) {
        Err(MediaError::PlaybackError(e)) => assert_eq!(e, "start: no"),
        _ => panic!(),
    }
}
