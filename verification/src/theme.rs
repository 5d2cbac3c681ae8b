//! Accent colours that follow the background picture.

use vstd::prelude::*;

use crate::highlight::Color;

verus! {

pub const MAX_SAMPLE_SIDE: usize = 64;

pub const HUE_BUCKET_COUNT: usize = 24;

#[derive(Debug, Clone, Copy, PartialEq, Eq, Structural)]
pub struct DynamicAccent {
    pub source: Color,
    pub light: Color,
    pub dark: Color,
}

/// What has to be done to the colours on screen.
#[derive(Debug, Clone, Copy, PartialEq, Eq, Structural)]
pub enum ThemeAction {
    Keep,
    Apply(DynamicAccent),
    /// The usual colours come back.
    Restore,
}

/// The picture that the accent was taken from, and the accent.
#[derive(Debug)]
pub struct DynamicTheme {
    analyzed_uri: Option<String>,
    accent: Option<DynamicAccent>,
    applied: bool,
}

#[verifier::ext_equal]
pub struct ThemeView {
    pub analyzed_uri: Option<Seq<char>>,
    pub accent: Option<DynamicAccent>,
    pub applied: bool,
}

impl DynamicTheme {
    pub closed spec fn inner(self) -> ThemeView {
        ThemeView {
            analyzed_uri: match self.analyzed_uri {
                Some(uri) => Some(uri@),
                None => None,
            },
            accent: self.accent,
            applied: self.applied,
        }
    }

    pub fn new() -> (theme: Self)
        ensures
            theme.inner() == (ThemeView { analyzed_uri: None, accent: None, applied: false }),
    {
        DynamicTheme { analyzed_uri: None, accent: None, applied: false }
    }

    /// A picture is analyzed once.
    pub fn needs_analysis(&self, uri: &str) -> (needed: bool)
        ensures
            needed == (self.inner().analyzed_uri != Some(uri@)),
    {
        match &self.analyzed_uri {
            Some(analyzed) => {
                let wanted = uri.to_owned();
                *analyzed != wanted
            },
            None => true,
        }
    }

    /// Takes in the accent of a picture, if it has one.
    pub fn set_accent(&mut self, uri: &str, accent: Option<DynamicAccent>) -> (action: ThemeAction)
        ensures
            final(self).inner() == (ThemeView {
                analyzed_uri: Some(uri@),
                accent,
                applied: accent is Some,
            }),
            action == match accent {
                Some(accent) => ThemeAction::Apply(accent),
                None => if old(self).inner().applied {
                    ThemeAction::Restore
                } else {
                    ThemeAction::Keep
                },
            },
    {
        self.analyzed_uri = Some(uri.to_owned());
        self.accent = accent;
        if let Some(accent) = accent {
            self.applied = true;
            ThemeAction::Apply(accent)
        } else if self.applied {
            self.applied = false;
            ThemeAction::Restore
        } else {
            ThemeAction::Keep
        }
    }

    /// Forgets the picture. Tells what to do to the colours, and whether to paint again.
    pub fn clear(&mut self) -> (result: (ThemeAction, bool))
        ensures
            final(self).inner() == (ThemeView {
                analyzed_uri: None,
                accent: None,
                applied: false,
            }),
            result.0 == if old(self).inner().applied {
                ThemeAction::Restore
            } else {
                ThemeAction::Keep
            },
            result.1 == (old(self).inner().analyzed_uri is Some || old(self).inner().applied),
    {
        let repaint = self.analyzed_uri.is_some() || self.applied;
        let action = if self.applied {
            ThemeAction::Restore
        } else {
            ThemeAction::Keep
        };
        self.analyzed_uri = None;
        self.accent = None;
        self.applied = false;
        (action, repaint)
    }

    pub fn accent(&self) -> (accent: Option<DynamicAccent>)
        ensures
            accent == self.inner().accent,
    {
        self.accent
    }
}

/// The distance between samples along a side of a picture, so that there are at most 64 of them.
pub fn sample_step(side: usize) -> (step: usize)
    ensures
        step >= 1,
        side <= step * MAX_SAMPLE_SIDE,
        step > 1 ==> (step - 1) * MAX_SAMPLE_SIDE < side,
{
    let whole: usize = side / MAX_SAMPLE_SIDE;
    if side % MAX_SAMPLE_SIDE != 0 {
        whole + 1
    } else if whole == 0 {
        1
    } else {
        whole
    }
}

/// The number of samples that a colour needs to count.
pub fn minimum_samples(sampled: usize) -> (minimum: usize)
    ensures
        minimum == if sampled < 16 {
            1
        } else if sampled / 256 < 2 {
            2
        } else {
            (sampled / 256) as int
        },
{
    if sampled < 16 {
        1
    } else if sampled / 256 < 2 {
        2
    } else {
        sampled / 256
    }
}

/// The hues beside one on the colour wheel, the one before and the one after.
pub fn neighboring_buckets(index: usize) -> (neighbors: (usize, usize))
    requires
        index < HUE_BUCKET_COUNT,
    ensures
        neighbors.0 < HUE_BUCKET_COUNT,
        neighbors.1 < HUE_BUCKET_COUNT,
        (neighbors.0 + 1) % HUE_BUCKET_COUNT as int == index,
        neighbors.1 == (index + 1) % HUE_BUCKET_COUNT as int,
{
    ((index + HUE_BUCKET_COUNT - 1) % HUE_BUCKET_COUNT, (index + 1) % HUE_BUCKET_COUNT)
}

} // verus!
