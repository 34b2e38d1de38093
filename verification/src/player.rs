//! Routing of player events: which playback events reach the player
//! window, which media shortcuts are bound to which window events, and
//! which window event closes the application.
use vstd::prelude::*;

verus! {

/// A playback event as the player window receives it.
#[derive(Debug, Clone, PartialEq, Eq)]
pub enum SpotiampPlayerEvent {
    Stopped { uri: String },
    Paused { uri: String, position_ms: u32 },
    EndOfTrack { uri: String },
    PositionCorrection { uri: String, position_ms: u32 },
    Seeked { uri: String, position_ms: u32 },
    TrackChanged { uri: String },
    Playing { uri: String, position_ms: u32 },
}

/// A playback event of the streaming engine, with its track's URI where the
/// event names a track; `Other` stands for every event the window does not
/// follow.
#[derive(Debug, Clone, PartialEq, Eq)]
pub enum PlaybackEvent {
    Playing { uri: String, position_ms: u32 },
    Stopped { uri: String },
    Paused { uri: String, position_ms: u32 },
    EndOfTrack { uri: String },
    PositionCorrection { uri: String, position_ms: u32 },
    Seeked { uri: String, position_ms: u32 },
    TrackChanged { uri: String },
    Other,
}

/// The window event for a playback event: the same kind, URI and position;
/// none for the events the window does not follow.
pub open spec fn forwarded(e: PlaybackEvent) -> Option<SpotiampPlayerEvent> {
    match e {
        PlaybackEvent::Playing { uri, position_ms } => Some(
            SpotiampPlayerEvent::Playing { uri, position_ms },
        ),
        PlaybackEvent::Stopped { uri } => Some(SpotiampPlayerEvent::Stopped { uri }),
        PlaybackEvent::Paused { uri, position_ms } => Some(
            SpotiampPlayerEvent::Paused { uri, position_ms },
        ),
        PlaybackEvent::EndOfTrack { uri } => Some(SpotiampPlayerEvent::EndOfTrack { uri }),
        PlaybackEvent::PositionCorrection { uri, position_ms } => Some(
            SpotiampPlayerEvent::PositionCorrection { uri, position_ms },
        ),
        PlaybackEvent::Seeked { uri, position_ms } => Some(
            SpotiampPlayerEvent::Seeked { uri, position_ms },
        ),
        PlaybackEvent::TrackChanged { uri } => Some(SpotiampPlayerEvent::TrackChanged { uri }),
        PlaybackEvent::Other => None,
    }
}

/// The kind of a playback event, numbered in the order of `PlaybackEvent`.
pub open spec fn playback_kind(e: PlaybackEvent) -> int {
    match e {
        PlaybackEvent::Playing { .. } => 0,
        PlaybackEvent::Stopped { .. } => 1,
        PlaybackEvent::Paused { .. } => 2,
        PlaybackEvent::EndOfTrack { .. } => 3,
        PlaybackEvent::PositionCorrection { .. } => 4,
        PlaybackEvent::Seeked { .. } => 5,
        PlaybackEvent::TrackChanged { .. } => 6,
        PlaybackEvent::Other => 7,
    }
}

/// The kind of a window event, numbered as the playback event of that name.
pub open spec fn window_kind(e: SpotiampPlayerEvent) -> int {
    match e {
        SpotiampPlayerEvent::Playing { .. } => 0,
        SpotiampPlayerEvent::Stopped { .. } => 1,
        SpotiampPlayerEvent::Paused { .. } => 2,
        SpotiampPlayerEvent::EndOfTrack { .. } => 3,
        SpotiampPlayerEvent::PositionCorrection { .. } => 4,
        SpotiampPlayerEvent::Seeked { .. } => 5,
        SpotiampPlayerEvent::TrackChanged { .. } => 6,
    }
}

/// The track URI a playback event names, if any.
pub open spec fn playback_uri(e: PlaybackEvent) -> Option<String> {
    match e {
        PlaybackEvent::Playing { uri, .. } => Some(uri),
        PlaybackEvent::Stopped { uri } => Some(uri),
        PlaybackEvent::Paused { uri, .. } => Some(uri),
        PlaybackEvent::EndOfTrack { uri } => Some(uri),
        PlaybackEvent::PositionCorrection { uri, .. } => Some(uri),
        PlaybackEvent::Seeked { uri, .. } => Some(uri),
        PlaybackEvent::TrackChanged { uri } => Some(uri),
        PlaybackEvent::Other => None,
    }
}

/// The position a playback event carries, if any.
pub open spec fn playback_position(e: PlaybackEvent) -> Option<u32> {
    match e {
        PlaybackEvent::Playing { position_ms, .. } => Some(position_ms),
        PlaybackEvent::Paused { position_ms, .. } => Some(position_ms),
        PlaybackEvent::PositionCorrection { position_ms, .. } => Some(position_ms),
        PlaybackEvent::Seeked { position_ms, .. } => Some(position_ms),
        _ => None,
    }
}

/// The track URI of a window event.
pub open spec fn window_uri(e: SpotiampPlayerEvent) -> String {
    match e {
        SpotiampPlayerEvent::Playing { uri, .. } => uri,
        SpotiampPlayerEvent::Stopped { uri } => uri,
        SpotiampPlayerEvent::Paused { uri, .. } => uri,
        SpotiampPlayerEvent::EndOfTrack { uri } => uri,
        SpotiampPlayerEvent::PositionCorrection { uri, .. } => uri,
        SpotiampPlayerEvent::Seeked { uri, .. } => uri,
        SpotiampPlayerEvent::TrackChanged { uri } => uri,
    }
}

/// The position a window event carries, if any.
pub open spec fn window_position(e: SpotiampPlayerEvent) -> Option<u32> {
    match e {
        SpotiampPlayerEvent::Playing { position_ms, .. } => Some(position_ms),
        SpotiampPlayerEvent::Paused { position_ms, .. } => Some(position_ms),
        SpotiampPlayerEvent::PositionCorrection { position_ms, .. } => Some(position_ms),
        SpotiampPlayerEvent::Seeked { position_ms, .. } => Some(position_ms),
        _ => None,
    }
}

/// Forwarding keeps what a playback event says: an event that names a track
/// reaches the window as the event of the same kind, with the same URI and
/// the same position; every other event is dropped.
pub proof fn lemma_forwarding_keeps_the_event(e: PlaybackEvent)
    ensures
        playback_uri(e) is None <==> forwarded(e) is None,
        forwarded(e) matches Some(w) ==> {
            &&& window_kind(w) == playback_kind(e)
            &&& Some(window_uri(w)) == playback_uri(e)
            &&& window_position(w) == playback_position(e)
        },
{
}

/// The event the player window is sent for a playback event, if any: the
/// event of the same kind with the same URI and position.
pub fn forwarded_player_event(e: PlaybackEvent) -> (r: Option<SpotiampPlayerEvent>)
    ensures
        r == forwarded(e),
        playback_uri(e) is None <==> r is None,
        r matches Some(w) ==> {
            &&& window_kind(w) == playback_kind(e)
            &&& Some(window_uri(w)) == playback_uri(e)
            &&& window_position(w) == playback_position(e)
        },
{
    proof {
        lemma_forwarding_keeps_the_event(e);
    }
    match e {
        PlaybackEvent::Playing { uri, position_ms } => Some(
            SpotiampPlayerEvent::Playing { uri, position_ms },
        ),
        PlaybackEvent::Stopped { uri } => Some(SpotiampPlayerEvent::Stopped { uri }),
        PlaybackEvent::Paused { uri, position_ms } => Some(
            SpotiampPlayerEvent::Paused { uri, position_ms },
        ),
        PlaybackEvent::EndOfTrack { uri } => Some(SpotiampPlayerEvent::EndOfTrack { uri }),
        PlaybackEvent::PositionCorrection { uri, position_ms } => Some(
            SpotiampPlayerEvent::PositionCorrection { uri, position_ms },
        ),
        PlaybackEvent::Seeked { uri, position_ms } => Some(
            SpotiampPlayerEvent::Seeked { uri, position_ms },
        ),
        PlaybackEvent::TrackChanged { uri } => Some(SpotiampPlayerEvent::TrackChanged { uri }),
        PlaybackEvent::Other => None,
    }
}

/// What the player window reports.
#[derive(Debug, Clone, Copy, PartialEq, Eq)]
pub enum PlayerWindowEvent {
    CloseRequested,
    PlayPausePressed,
    StopPressed,
    NextPressed,
    PreviousPressed,
}

/// Only a close request ends the application.
pub fn closes_app(e: PlayerWindowEvent) -> (r: bool)
    ensures
        r <==> e == PlayerWindowEvent::CloseRequested,
{
    match e {
        PlayerWindowEvent::CloseRequested => true,
        _ => false,
    }
}

/// The configured media shortcuts; `None` leaves the key unbound.
#[derive(Debug, Clone, PartialEq, Eq)]
pub struct ShortcutSettings {
    pub play_pause: Option<String>,
    pub stop: Option<String>,
    pub next: Option<String>,
    pub previous: Option<String>,
}

/// A shortcut to register: its name, its key combination as written in the
/// settings, and the window event that pressing it sends.
#[derive(Debug, Clone, PartialEq, Eq)]
pub struct MediaShortcut {
    pub name: String,
    pub shortcut: String,
    pub event: PlayerWindowEvent,
}

pub struct MediaShortcutView {
    pub name: Seq<char>,
    pub shortcut: Seq<char>,
    pub event: PlayerWindowEvent,
}

impl View for MediaShortcut {
    type V = MediaShortcutView;

    open spec fn view(&self) -> MediaShortcutView {
        MediaShortcutView { name: self.name@, shortcut: self.shortcut@, event: self.event }
    }
}

/// The binding of one media key, if it is configured.
pub open spec fn binding(name: Seq<char>, setting: Option<String>, event: PlayerWindowEvent) -> Seq<
    MediaShortcutView,
> {
    match setting {
        Some(s) => seq![MediaShortcutView { name, shortcut: s@, event }],
        None => Seq::empty(),
    }
}

/// The bindings of the configured keys, in the order play/pause, stop,
/// next, previous.
pub open spec fn bindings_of(settings: ShortcutSettings) -> Seq<MediaShortcutView> {
    binding("play_pause"@, settings.play_pause, PlayerWindowEvent::PlayPausePressed) + binding(
        "stop"@,
        settings.stop,
        PlayerWindowEvent::StopPressed,
    ) + binding("next"@, settings.next, PlayerWindowEvent::NextPressed) + binding(
        "previous"@,
        settings.previous,
        PlayerWindowEvent::PreviousPressed,
    )
}

fn push_binding(
    out: &mut Vec<MediaShortcut>,
    name: &str,
    setting: Option<String>,
    event: PlayerWindowEvent,
)
    ensures
        final(out)@.map_values(|m: MediaShortcut| m@) == old(out)@.map_values(
            |m: MediaShortcut| m@,
        ) + binding(name@, setting, event),
{
    let ghost before = out@;
    match setting {
        Some(shortcut) => {
            out.push(MediaShortcut { name: String::from_str(name), shortcut, event });
            assert(out@.map_values(|m: MediaShortcut| m@) =~= before.map_values(
                |m: MediaShortcut| m@,
            ) + binding(name@, setting, event));
        },
        None => {
            assert(out@.map_values(|m: MediaShortcut| m@) =~= before.map_values(
                |m: MediaShortcut| m@,
            ) + binding(name@, setting, event));
        },
    }
}

/// The media shortcuts to register, for the keys that are configured.
pub fn media_shortcuts(settings: ShortcutSettings) -> (r: Vec<MediaShortcut>)
    ensures
        r@.map_values(|m: MediaShortcut| m@) == bindings_of(settings),
{
    let ghost s = settings;
    let mut out: Vec<MediaShortcut> = Vec::new();
    assert(out@.map_values(|m: MediaShortcut| m@) =~= Seq::<MediaShortcutView>::empty());
    push_binding(&mut out, "play_pause", settings.play_pause, PlayerWindowEvent::PlayPausePressed);
    push_binding(&mut out, "stop", settings.stop, PlayerWindowEvent::StopPressed);
    push_binding(&mut out, "next", settings.next, PlayerWindowEvent::NextPressed);
    push_binding(&mut out, "previous", settings.previous, PlayerWindowEvent::PreviousPressed);
    assert(out@.map_values(|m: MediaShortcut| m@) =~= bindings_of(s));
    out
}

} // verus!
