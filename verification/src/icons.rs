//! Every icon a surface here asks a theme for.
//!
//! An icon name nobody has is a broken square in the middle of a button, so
//! the names are here, one variant each: the list of icons this desktop needs
//! is [`EVERY`], exhaustive because the compiler says so, and a check can cross
//! it against the theme the device has. Each icon also says its glyph, the
//! codepoint the surface sets the way it sets a letter.

use vstd::prelude::*;

verus! {

/// An icon.
#[derive(Clone, Copy, PartialEq, Eq, Debug, Structural)]
pub enum Icon {
    Rewind,
    FastForward,
    Subtitles,
    FullScreen,
    LeaveFullScreen,
    ZoomIn,
    ZoomOut,
    Folder,
    Film,
    Shuffle,
    Previous,
    Play,
    Pause,
    Next,
    RepeatSong,
    Repeat,
    Sun,
    Moon,
    CloudSun,
    CloudMoon,
    Cloud,
    Fog,
    Rain,
    Snow,
    Thunderstorm,
    Wind,
    Thermometer,
    Humidity,
    Umbrella,
    Backspace,
}

/// The name a theme knows an icon by.
pub open spec fn name_of(icon: Icon) -> Seq<char> {
    match icon {
        Icon::Rewind => "media-seek-backward-symbolic"@,
        Icon::FastForward => "media-seek-forward-symbolic"@,
        Icon::Subtitles => "media-view-subtitles-symbolic"@,
        Icon::FullScreen => "view-fullscreen-symbolic"@,
        Icon::LeaveFullScreen => "view-restore-symbolic"@,
        Icon::ZoomIn => "zoom-in-symbolic"@,
        Icon::ZoomOut => "zoom-out-symbolic"@,
        Icon::Folder => "folder-symbolic"@,
        Icon::Film => "camera-video-symbolic"@,
        Icon::Shuffle => "media-playlist-shuffle-symbolic"@,
        Icon::Previous => "media-skip-backward-symbolic"@,
        Icon::Play => "media-playback-start-symbolic"@,
        Icon::Pause => "media-playback-pause-symbolic"@,
        Icon::Next => "media-skip-forward-symbolic"@,
        Icon::RepeatSong => "media-playlist-repeat-song-symbolic"@,
        Icon::Repeat => "media-playlist-repeat-symbolic"@,
        Icon::Sun => "weather-clear-symbolic"@,
        Icon::Moon => "weather-clear-night-symbolic"@,
        Icon::CloudSun => "weather-few-clouds-symbolic"@,
        Icon::CloudMoon => "weather-few-clouds-night-symbolic"@,
        Icon::Cloud => "weather-overcast-symbolic"@,
        Icon::Fog => "weather-fog-symbolic"@,
        Icon::Rain => "weather-showers-symbolic"@,
        Icon::Snow => "weather-snow-symbolic"@,
        Icon::Thunderstorm => "weather-storm-symbolic"@,
        Icon::Wind => "weather-windy-symbolic"@,
        Icon::Thermometer => "temperature-normal-symbolic"@,
        Icon::Humidity => "raindrop-symbolic"@,
        Icon::Umbrella => "weather-showers-scattered-symbolic"@,
        Icon::Backspace => "edit-clear-symbolic"@,
    }
}

/// The glyph an icon is drawn as.
pub open spec fn glyph_of(icon: Icon) -> Seq<char> {
    match icon {
        Icon::Rewind => "\u{f045f}"@,
        Icon::FastForward => "\u{f0211}"@,
        Icon::Subtitles => "\u{f0a16}"@,
        Icon::FullScreen => "\u{f0293}"@,
        Icon::LeaveFullScreen => "\u{f0294}"@,
        Icon::ZoomIn => "\u{f06ed}"@,
        Icon::ZoomOut => "\u{f06ec}"@,
        Icon::Folder => "\u{f024b}"@,
        Icon::Film => "\u{f0567}"@,
        Icon::Shuffle => "\u{f049f}"@,
        Icon::Previous => "\u{f04ae}"@,
        Icon::Play => "\u{f040a}"@,
        Icon::Pause => "\u{f03e4}"@,
        Icon::Next => "\u{f04ad}"@,
        Icon::RepeatSong => "\u{f0458}"@,
        Icon::Repeat => "\u{f0456}"@,
        Icon::Sun => "\u{f0599}"@,
        Icon::Moon => "\u{f0594}"@,
        Icon::CloudSun => "\u{f0595}"@,
        Icon::CloudMoon => "\u{f0f31}"@,
        Icon::Cloud => "\u{f0590}"@,
        Icon::Fog => "\u{f0591}"@,
        Icon::Rain => "\u{f0597}"@,
        Icon::Snow => "\u{f0598}"@,
        Icon::Thunderstorm => "\u{f0593}"@,
        Icon::Wind => "\u{f059d}"@,
        Icon::Thermometer => "\u{f050f}"@,
        Icon::Humidity => "\u{f058e}"@,
        Icon::Umbrella => "\u{f054a}"@,
        Icon::Backspace => "\u{f0b5c}"@,
    }
}

impl Icon {
    /// The name a theme knows this icon by.
    pub fn name(&self) -> (r: &'static str)
        ensures
            r@ == name_of(*self),
    {
        match self {
            Icon::Rewind => "media-seek-backward-symbolic",
            Icon::FastForward => "media-seek-forward-symbolic",
            Icon::Subtitles => "media-view-subtitles-symbolic",
            Icon::FullScreen => "view-fullscreen-symbolic",
            Icon::LeaveFullScreen => "view-restore-symbolic",
            Icon::ZoomIn => "zoom-in-symbolic",
            Icon::ZoomOut => "zoom-out-symbolic",
            Icon::Folder => "folder-symbolic",
            Icon::Film => "camera-video-symbolic",
            Icon::Shuffle => "media-playlist-shuffle-symbolic",
            Icon::Previous => "media-skip-backward-symbolic",
            Icon::Play => "media-playback-start-symbolic",
            Icon::Pause => "media-playback-pause-symbolic",
            Icon::Next => "media-skip-forward-symbolic",
            Icon::RepeatSong => "media-playlist-repeat-song-symbolic",
            Icon::Repeat => "media-playlist-repeat-symbolic",
            Icon::Sun => "weather-clear-symbolic",
            Icon::Moon => "weather-clear-night-symbolic",
            Icon::CloudSun => "weather-few-clouds-symbolic",
            Icon::CloudMoon => "weather-few-clouds-night-symbolic",
            Icon::Cloud => "weather-overcast-symbolic",
            Icon::Fog => "weather-fog-symbolic",
            Icon::Rain => "weather-showers-symbolic",
            Icon::Snow => "weather-snow-symbolic",
            Icon::Thunderstorm => "weather-storm-symbolic",
            Icon::Wind => "weather-windy-symbolic",
            Icon::Thermometer => "temperature-normal-symbolic",
            Icon::Humidity => "raindrop-symbolic",
            Icon::Umbrella => "weather-showers-scattered-symbolic",
            Icon::Backspace => "edit-clear-symbolic",
        }
    }

    /// The glyph this icon is drawn as.
    pub fn glyph(&self) -> (r: &'static str)
        ensures
            r@ == glyph_of(*self),
    {
        match self {
            Icon::Rewind => "\u{f045f}",
            Icon::FastForward => "\u{f0211}",
            Icon::Subtitles => "\u{f0a16}",
            Icon::FullScreen => "\u{f0293}",
            Icon::LeaveFullScreen => "\u{f0294}",
            Icon::ZoomIn => "\u{f06ed}",
            Icon::ZoomOut => "\u{f06ec}",
            Icon::Folder => "\u{f024b}",
            Icon::Film => "\u{f0567}",
            Icon::Shuffle => "\u{f049f}",
            Icon::Previous => "\u{f04ae}",
            Icon::Play => "\u{f040a}",
            Icon::Pause => "\u{f03e4}",
            Icon::Next => "\u{f04ad}",
            Icon::RepeatSong => "\u{f0458}",
            Icon::Repeat => "\u{f0456}",
            Icon::Sun => "\u{f0599}",
            Icon::Moon => "\u{f0594}",
            Icon::CloudSun => "\u{f0595}",
            Icon::CloudMoon => "\u{f0f31}",
            Icon::Cloud => "\u{f0590}",
            Icon::Fog => "\u{f0591}",
            Icon::Rain => "\u{f0597}",
            Icon::Snow => "\u{f0598}",
            Icon::Thunderstorm => "\u{f0593}",
            Icon::Wind => "\u{f059d}",
            Icon::Thermometer => "\u{f050f}",
            Icon::Humidity => "\u{f058e}",
            Icon::Umbrella => "\u{f054a}",
            Icon::Backspace => "\u{f0b5c}",
        }
    }
}

/// Every icon there is.
pub const EVERY: [Icon; 30] = [
    Icon::Rewind,
    Icon::FastForward,
    Icon::Subtitles,
    Icon::FullScreen,
    Icon::LeaveFullScreen,
    Icon::ZoomIn,
    Icon::ZoomOut,
    Icon::Folder,
    Icon::Film,
    Icon::Shuffle,
    Icon::Previous,
    Icon::Play,
    Icon::Pause,
    Icon::Next,
    Icon::RepeatSong,
    Icon::Repeat,
    Icon::Sun,
    Icon::Moon,
    Icon::CloudSun,
    Icon::CloudMoon,
    Icon::Cloud,
    Icon::Fog,
    Icon::Rain,
    Icon::Snow,
    Icon::Thunderstorm,
    Icon::Wind,
    Icon::Thermometer,
    Icon::Humidity,
    Icon::Umbrella,
    Icon::Backspace,
];

} // verus!
