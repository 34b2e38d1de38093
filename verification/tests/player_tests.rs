use spotiamp::player::{
    closes_app, forwarded_player_event, media_shortcuts, MediaShortcut, PlaybackEvent,
    PlayerWindowEvent, ShortcutSettings, SpotiampPlayerEvent,
};

#[test]
fn playback_events_are_forwarded_with_uri_and_position() {
    let uri = "spotify:track:abc".to_string();
    assert_eq!(
        forwarded_player_event(PlaybackEvent::Playing { uri: uri.clone(), position_ms: 1200 }),
        Some(SpotiampPlayerEvent::Playing { uri: uri.clone(), position_ms: 1200 })
    );
    assert_eq!(
        forwarded_player_event(PlaybackEvent::Paused { uri: uri.clone(), position_ms: 7 }),
        Some(SpotiampPlayerEvent::Paused { uri: uri.clone(), position_ms: 7 })
    );
    assert_eq!(
        forwarded_player_event(PlaybackEvent::Seeked { uri: uri.clone(), position_ms: 9 }),
        Some(SpotiampPlayerEvent::Seeked { uri: uri.clone(), position_ms: 9 })
    );
    assert_eq!(
        forwarded_player_event(PlaybackEvent::PositionCorrection { uri: uri.clone(), position_ms: 3 }),
        Some(SpotiampPlayerEvent::PositionCorrection { uri: uri.clone(), position_ms: 3 })
    );
    assert_eq!(
        forwarded_player_event(PlaybackEvent::Stopped { uri: uri.clone() }),
        Some(SpotiampPlayerEvent::Stopped { uri: uri.clone() })
    );
    assert_eq!(
        forwarded_player_event(PlaybackEvent::EndOfTrack { uri: uri.clone() }),
        Some(SpotiampPlayerEvent::EndOfTrack { uri: uri.clone() })
    );
    assert_eq!(
        forwarded_player_event(PlaybackEvent::TrackChanged { uri: uri.clone() }),
        Some(SpotiampPlayerEvent::TrackChanged { uri })
    );
}

#[test]
fn other_playback_events_are_not_forwarded() {
    assert_eq!(forwarded_player_event(PlaybackEvent::Other), None);
}

#[test]
fn only_close_requests_close_the_app() {
    assert!(closes_app(PlayerWindowEvent::CloseRequested));
    assert!(!closes_app(PlayerWindowEvent::PlayPausePressed));
    assert!(!closes_app(PlayerWindowEvent::StopPressed));
    assert!(!closes_app(PlayerWindowEvent::NextPressed));
    assert!(!closes_app(PlayerWindowEvent::PreviousPressed));
}

#[test]
fn all_configured_media_keys_are_bound_in_order() {
    let settings = ShortcutSettings {
        play_pause: Some("MediaPlayPause".to_string()),
        stop: Some("MediaStop".to_string()),
        next: Some("MediaTrackNext".to_string()),
        previous: Some("MediaTrackPrevious".to_string()),
    };
    let bound = media_shortcuts(settings);
    assert_eq!(
        bound,
        vec![
            MediaShortcut { name: "play_pause".to_string(), shortcut: "MediaPlayPause".to_string(), event: PlayerWindowEvent::PlayPausePressed },
            MediaShortcut { name: "stop".to_string(), shortcut: "MediaStop".to_string(), event: PlayerWindowEvent::StopPressed },
            MediaShortcut { name: "next".to_string(), shortcut: "MediaTrackNext".to_string(), event: PlayerWindowEvent::NextPressed },
            MediaShortcut { name: "previous".to_string(), shortcut: "MediaTrackPrevious".to_string(), event: PlayerWindowEvent::PreviousPressed },
        ]
    );
}

#[test]
fn disabled_media_keys_are_skipped() {
    let settings = ShortcutSettings {
        play_pause: None,
        stop: Some("Ctrl+S".to_string()),
        next: None,
        previous: None,
    };
    let bound = media_shortcuts(settings);
    assert_eq!(bound.len(), 1);
    assert_eq!(bound[0].name, "stop");
    assert_eq!(bound[0].event, PlayerWindowEvent::StopPressed);
    let none = ShortcutSettings { play_pause: None, stop: None, next: None, previous: None };
    assert!(media_shortcuts(none).is_empty());
}
