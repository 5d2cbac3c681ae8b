//! What the user has set, apart from sizes and opacities.

use vstd::prelude::*;

use crate::background::AppBackgroundSource;
use crate::model::{LineEnding, ReceiveMode, SendMode, TextEncoding};
use crate::timestamp::DEFAULT_TIMESTAMP_FORMAT;

verus! {

pub const SETTINGS_SCHEMA_VERSION: u32 = 6;

pub const DEFAULT_FONT_WEIGHT: u16 = 400;

pub const DEFAULT_BUFFER_LIMIT_MIB: usize = 20;

pub const MIN_REPEAT_INTERVAL_MS: u64 = 20;

pub const MAX_REPEAT_INTERVAL_MS: u64 = 3_600_000;

/// The sizes that the receive buffer can have.
pub open spec fn is_buffer_limit(mib: usize) -> bool {
    mib == 5 || mib == 20 || mib == 100 || mib == 500
}

/// The sizes that the receive buffer can have, in MiB.
pub fn buffer_limit_options() -> (options: Vec<usize>)
    ensures
        options@ == seq![5usize, 20usize, 100usize, 500usize],
        forall|mib: usize| options@.contains(mib) == is_buffer_limit(mib),
{
    let options: Vec<usize> = vec![5, 20, 100, 500];
    assert(options@ =~= seq![5usize, 20usize, 100usize, 500usize]);
    assert forall|mib: usize| options@.contains(mib) == is_buffer_limit(mib) by {
        assert(options@[0] == 5 && options@[1] == 20 && options@[2] == 100 && options@[3] == 500);
    }
    options
}

#[derive(Debug, Clone, Copy, PartialEq, Eq, Structural)]
pub enum ThemePreference {
    System,
    Light,
    Dark,
}

impl ThemePreference {
    pub fn label(self) -> (label: &'static str)
        ensures
            label@ == match self {
                ThemePreference::System => "跟随系统"@,
                ThemePreference::Light => "亮色"@,
                ThemePreference::Dark => "暗色"@,
            },
    {
        match self {
            ThemePreference::System => "跟随系统",
            ThemePreference::Light => "亮色",
            ThemePreference::Dark => "暗色",
        }
    }

    pub fn icon(self) -> (icon: &'static str)
        ensures
            icon@ == match self {
                ThemePreference::System => "💻"@,
                ThemePreference::Light => "☀"@,
                ThemePreference::Dark => "🌙"@,
            },
    {
        match self {
            ThemePreference::System => "💻",
            ThemePreference::Light => "☀",
            ThemePreference::Dark => "🌙",
        }
    }
}

#[derive(Debug)]
pub struct UiPreferences {
    pub schema_version: u32,
    pub ui_font_family: String,
    pub data_font_family: String,
    pub ui_font_weight: u16,
    pub data_font_weight: u16,
    pub receive_mode: ReceiveMode,
    pub send_mode: SendMode,
    pub text_encoding: TextEncoding,
    pub timestamps: bool,
    pub timestamp_format: String,
    pub auto_scroll: bool,
    pub line_ending: LineEnding,
    pub clear_after_send: bool,
    pub repeat_interval_ms: u64,
    pub buffer_limit_mib: usize,
    pub theme_preference: ThemePreference,
    pub background_source: AppBackgroundSource,
    pub background_local_path: String,
    pub background_online_url: String,
    pub dynamic_accent: bool,
}

/// What the preferences say.
#[verifier::ext_equal]
pub struct PreferencesView {
    pub schema_version: u32,
    pub ui_font_family: Seq<char>,
    pub data_font_family: Seq<char>,
    pub ui_font_weight: u16,
    pub data_font_weight: u16,
    pub receive_mode: ReceiveMode,
    pub send_mode: SendMode,
    pub text_encoding: TextEncoding,
    pub timestamps: bool,
    pub timestamp_format: Seq<char>,
    pub auto_scroll: bool,
    pub line_ending: LineEnding,
    pub clear_after_send: bool,
    pub repeat_interval_ms: u64,
    pub buffer_limit_mib: usize,
    pub theme_preference: ThemePreference,
    pub background_source: AppBackgroundSource,
    pub background_local_path: Seq<char>,
    pub background_online_url: Seq<char>,
    pub dynamic_accent: bool,
}

impl View for UiPreferences {
    type V = PreferencesView;

    open spec fn view(&self) -> PreferencesView {
        PreferencesView {
            schema_version: self.schema_version,
            ui_font_family: self.ui_font_family@,
            data_font_family: self.data_font_family@,
            ui_font_weight: self.ui_font_weight,
            data_font_weight: self.data_font_weight,
            receive_mode: self.receive_mode,
            send_mode: self.send_mode,
            text_encoding: self.text_encoding,
            timestamps: self.timestamps,
            timestamp_format: self.timestamp_format@,
            auto_scroll: self.auto_scroll,
            line_ending: self.line_ending,
            clear_after_send: self.clear_after_send,
            repeat_interval_ms: self.repeat_interval_ms,
            buffer_limit_mib: self.buffer_limit_mib,
            theme_preference: self.theme_preference,
            background_source: self.background_source,
            background_local_path: self.background_local_path@,
            background_online_url: self.background_online_url@,
            dynamic_accent: self.dynamic_accent,
        }
    }
}

/// The preferences of a user who has set nothing.
pub open spec fn default_preferences() -> PreferencesView {
    PreferencesView {
        schema_version: SETTINGS_SCHEMA_VERSION,
        ui_font_family: Seq::empty(),
        data_font_family: Seq::empty(),
        ui_font_weight: DEFAULT_FONT_WEIGHT,
        data_font_weight: DEFAULT_FONT_WEIGHT,
        receive_mode: ReceiveMode::Text,
        send_mode: SendMode::Text,
        text_encoding: TextEncoding::Utf8,
        timestamps: false,
        timestamp_format: DEFAULT_TIMESTAMP_FORMAT@,
        auto_scroll: true,
        line_ending: LineEnding::CrLf,
        clear_after_send: false,
        repeat_interval_ms: 1_000,
        buffer_limit_mib: DEFAULT_BUFFER_LIMIT_MIB,
        theme_preference: ThemePreference::System,
        background_source: AppBackgroundSource::Off,
        background_local_path: Seq::empty(),
        background_online_url: Seq::empty(),
        dynamic_accent: true,
    }
}

pub open spec fn sanitized_weight(weight: u16) -> u16 {
    if 1 <= weight <= 1000 {
        weight
    } else {
        DEFAULT_FONT_WEIGHT
    }
}

impl PreferencesView {
    /// All values are ones that the program supports.
    pub open spec fn supported(self) -> bool {
        &&& self.schema_version == SETTINGS_SCHEMA_VERSION
        &&& 1 <= self.ui_font_weight <= 1000
        &&& 1 <= self.data_font_weight <= 1000
        &&& MIN_REPEAT_INTERVAL_MS <= self.repeat_interval_ms <= MAX_REPEAT_INTERVAL_MS
        &&& is_buffer_limit(self.buffer_limit_mib)
    }

    /// Values that are not supported are replaced: numbers by the nearest that is, or by the
    /// usual one.
    pub open spec fn sanitized(self) -> PreferencesView {
        PreferencesView {
            schema_version: SETTINGS_SCHEMA_VERSION,
            ui_font_weight: sanitized_weight(self.ui_font_weight),
            data_font_weight: sanitized_weight(self.data_font_weight),
            repeat_interval_ms: if self.repeat_interval_ms < MIN_REPEAT_INTERVAL_MS {
                MIN_REPEAT_INTERVAL_MS
            } else if self.repeat_interval_ms > MAX_REPEAT_INTERVAL_MS {
                MAX_REPEAT_INTERVAL_MS
            } else {
                self.repeat_interval_ms
            },
            buffer_limit_mib: if is_buffer_limit(self.buffer_limit_mib) {
                self.buffer_limit_mib
            } else {
                DEFAULT_BUFFER_LIMIT_MIB
            },
            ..self
        }
    }
}

impl Default for UiPreferences {
    fn default() -> (preferences: Self)
        ensures
            preferences@ == default_preferences(),
    {
        UiPreferences {
            schema_version: SETTINGS_SCHEMA_VERSION,
            ui_font_family: String::new(),
            data_font_family: String::new(),
            ui_font_weight: DEFAULT_FONT_WEIGHT,
            data_font_weight: DEFAULT_FONT_WEIGHT,
            receive_mode: ReceiveMode::Text,
            send_mode: SendMode::Text,
            text_encoding: TextEncoding::Utf8,
            timestamps: false,
            timestamp_format: DEFAULT_TIMESTAMP_FORMAT.to_owned(),
            auto_scroll: true,
            line_ending: LineEnding::CrLf,
            clear_after_send: false,
            repeat_interval_ms: 1_000,
            buffer_limit_mib: DEFAULT_BUFFER_LIMIT_MIB,
            theme_preference: ThemePreference::System,
            background_source: AppBackgroundSource::Off,
            background_local_path: String::new(),
            background_online_url: String::new(),
            dynamic_accent: true,
        }
    }
}

fn sanitize_weight(weight: u16) -> (result: u16)
    ensures
        result == sanitized_weight(weight),
{
    if 1 <= weight && weight <= 1000 {
        weight
    } else {
        DEFAULT_FONT_WEIGHT
    }
}

impl UiPreferences {
    /// Replaces values that are not supported.
    pub fn sanitize(&mut self)
        ensures
            final(self)@ == old(self)@.sanitized(),
    {
        let interval: u64 = self.repeat_interval_ms;
        let mib: usize = self.buffer_limit_mib;
        self.schema_version = SETTINGS_SCHEMA_VERSION;
        self.ui_font_weight = sanitize_weight(self.ui_font_weight);
        self.data_font_weight = sanitize_weight(self.data_font_weight);
        self.repeat_interval_ms = if interval < MIN_REPEAT_INTERVAL_MS {
            MIN_REPEAT_INTERVAL_MS
        } else if interval > MAX_REPEAT_INTERVAL_MS {
            MAX_REPEAT_INTERVAL_MS
        } else {
            interval
        };
        self.buffer_limit_mib = if mib == 5 || mib == 20 || mib == 100 || mib == 500 {
            mib
        } else {
            DEFAULT_BUFFER_LIMIT_MIB
        };
    }

    pub fn buffer_limit_bytes(&self) -> (bytes: usize)
        ensures
            bytes == if self@.buffer_limit_mib * 1_048_576 <= usize::MAX {
                self@.buffer_limit_mib * 1_048_576
            } else {
                usize::MAX as int
            },
    {
        match self.buffer_limit_mib.checked_mul(1_048_576) {
            Some(bytes) => bytes,
            None => usize::MAX,
        }
    }
}

/// How long changed preferences wait to be saved, in milliseconds.
pub const SAVE_DELAY: u64 = 750;

/// Tells when changed preferences are to be saved: some time after the last change.
#[derive(Debug, Clone, Copy)]
pub struct SaveSchedule {
    dirty_since: Option<u64>,
}

impl SaveSchedule {
    /// When the last change was made that is not saved yet.
    pub closed spec fn unsaved_since(self) -> Option<u64> {
        self.dirty_since
    }

    pub fn new() -> (schedule: Self)
        ensures
            schedule.unsaved_since() is None,
    {
        SaveSchedule { dirty_since: None }
    }

    /// Something was changed.
    pub fn mark_dirty(&mut self, now: u64)
        ensures
            final(self).unsaved_since() == Some(now),
    {
        self.dirty_since = Some(now);
    }

    pub fn is_dirty(&self) -> (dirty: bool)
        ensures
            dirty == self.unsaved_since() is Some,
    {
        self.dirty_since.is_some()
    }

    /// The preferences are to be saved now. Whatever comes of it, they are not saved again before
    /// the next change.
    pub fn take_due(&mut self, now: u64) -> (due: bool)
        ensures
            due == (old(self).unsaved_since() matches Some(since) && now - since >= SAVE_DELAY),
            final(self).unsaved_since() == if due {
                None
            } else {
                old(self).unsaved_since()
            },
    {
        if let Some(since) = self.dirty_since {
            if now.saturating_sub(since) >= SAVE_DELAY {
                self.dirty_since = None;
                return true;
            }
        }
        false
    }
}

/// Sanitized preferences are supported, and preferences that are supported already stay as they
/// are.
pub proof fn sanitizing_restores_supported_values(preferences: PreferencesView)
    ensures
        preferences.sanitized().supported(),
        preferences.supported() ==> preferences.sanitized() == preferences,
{
}

/// What a user has never set is supported.
pub proof fn defaults_are_supported()
    ensures
        default_preferences().supported(),
        default_preferences().sanitized() == default_preferences(),
{
}

/// Sanitizing changes nothing but what is out of range: an interval goes to the nearer end of
/// twenty milliseconds to an hour, a weight outside one to a thousand becomes four hundred, and a
/// buffer that is not five, twenty, a hundred or five hundred mebibytes becomes twenty.
pub proof fn only_what_is_out_of_range_is_replaced(preferences: PreferencesView)
    ensures
        ({
            let after = preferences.sanitized();
            let (interval, limit) = (preferences.repeat_interval_ms, preferences.buffer_limit_mib);
            &&& after.repeat_interval_ms == if interval < 20 {
                20
            } else if interval > 3_600_000 {
                3_600_000
            } else {
                interval
            }
            &&& after.ui_font_weight == if preferences.ui_font_weight == 0
                || preferences.ui_font_weight > 1_000 {
                400
            } else {
                preferences.ui_font_weight
            }
            &&& after.data_font_weight == if preferences.data_font_weight == 0
                || preferences.data_font_weight > 1_000 {
                400
            } else {
                preferences.data_font_weight
            }
            &&& after.buffer_limit_mib == if limit == 5 || limit == 20 || limit == 100 || limit
                == 500 {
                limit
            } else {
                20
            }
            &&& after == (PreferencesView {
                schema_version: 6,
                ui_font_weight: after.ui_font_weight,
                data_font_weight: after.data_font_weight,
                repeat_interval_ms: after.repeat_interval_ms,
                buffer_limit_mib: after.buffer_limit_mib,
                ..preferences
            })
        }),
{
}

/// What a user has never set: text in UTF-8 without times, lines that end with a carriage return
/// and a line feed, one message each second, twenty mebibytes, and no picture.
pub proof fn what_is_never_set()
    ensures
        ({
            let preferences = default_preferences();
            &&& preferences.receive_mode == ReceiveMode::Text
            &&& preferences.send_mode == SendMode::Text
            &&& preferences.text_encoding == TextEncoding::Utf8
            &&& preferences.line_ending == LineEnding::CrLf
            &&& !preferences.timestamps
            &&& preferences.timestamp_format == "%Y-%m-%d %H:%M:%S%.3f"@
            &&& preferences.auto_scroll
            &&& !preferences.clear_after_send
            &&& preferences.repeat_interval_ms == 1_000
            &&& preferences.buffer_limit_mib == 20
            &&& preferences.ui_font_weight == 400
            &&& preferences.data_font_weight == 400
            &&& preferences.ui_font_family.len() == 0
            &&& preferences.data_font_family.len() == 0
            &&& preferences.theme_preference == ThemePreference::System
            &&& preferences.background_source == AppBackgroundSource::Off
            &&& preferences.dynamic_accent
        }),
{
}

} // verus!
