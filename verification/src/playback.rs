//! Playback of a recording: the samples that are held, which of them go to which channel, and the
//! keys that turn it.
use crate::paths::{playback_paths_equal, same_playback_path, Platform};
use crate::session::playing::{toggle_action, ToggleAction};
use crate::sizes::{hms, secs_to_hms};
use crate::text::cat4;
use vstd::prelude::*;
use vstd::string::*;

verus! {

/// Within how many milliseconds a jump counts as a repetition of the one before.
pub const SEEK_REPEAT_MS: u64 = 800;

/// A recording in memory: two samples for each frame, the left one first.
#[derive(Debug)]
pub struct Player<T> {
    pub samples: Vec<T>,
    pub total_frames: usize,
    pub playing: bool,
    pub ended: bool,
    /// The file that the samples are from.
    pub source: Option<String>,
}

impl<T: Copy> Player<T> {
    /// The frames are those that the samples make.
    pub open spec fn wf(&self) -> bool {
        self.total_frames == self.samples@.len() / 2
    }

    /// A player without a recording.
    pub fn empty() -> (r: Player<T>)
        ensures
            r.wf(),
            r.samples@ == Seq::<T>::empty(),
            !r.playing,
            !r.ended,
            r.source is None,
    {
        Player { samples: Vec::new(), total_frames: 0, playing: false, ended: false, source: None }
    }

    /// Takes the samples of a recording, and plays them or waits.
    pub fn load(&mut self, samples: Vec<T>, source: String, playing: bool)
        ensures
            final(self).wf(),
            final(self).samples@ == samples@,
            final(self).playing == playing,
            !final(self).ended,
            final(self).source matches Some(p) && p@ == source@,
    {
        self.total_frames = samples.len() / 2;
        self.samples = samples;
        self.playing = playing;
        self.ended = false;
        self.source = Some(source);
    }

    /// Whether there is anything to play.
    pub fn has_audio(&self) -> (r: bool)
        ensures
            r == (self.total_frames > 0),
    {
        self.total_frames > 0
    }

    /// Whether the recording that is held is that of a file.
    pub fn has_loaded_path(&self, platform: Platform, path: &str) -> (r: bool)
        ensures
            r == (self.total_frames > 0 && (self.source matches Some(p) && same_playback_path(
                platform,
                p@,
                path@,
            ))),
    {
        match &self.source {
            Some(p) => self.total_frames > 0 && playback_paths_equal(platform, p.as_str(), path),
            None => false,
        }
    }

    /// Plays from the place that was chosen.
    pub fn resume(&mut self)
        ensures
            *final(self) == (Player { playing: true, ended: false, ..*old(self) }),
    {
        self.playing = true;
        self.ended = false;
    }

    /// Pauses what plays, plays what pauses.
    pub fn toggle(&mut self)
        ensures
            *final(self) == (Player { playing: !old(self).playing, ..*old(self) }),
    {
        self.playing = !self.playing;
    }

    /// The two samples of a frame; none where nothing plays, and behind the last frame, where
    /// playing ends.
    pub fn frame_at(&mut self, index: usize) -> (r: Option<(T, T)>)
        requires
            old(self).wf(),
        ensures
            final(self).wf(),
            if !old(self).playing || old(self).total_frames == 0 {
                r is None && *final(self) == *old(self)
            } else if index >= old(self).total_frames {
                r is None && *final(self) == (Player { playing: false, ended: true, ..*old(self) })
            } else {
                r == Some((old(self).samples@[2 * index], old(self).samples@[2 * index + 1]))
                    && *final(self) == *old(self)
            },
    {
        if !self.playing || self.total_frames == 0 {
            return None;
        }
        if index >= self.total_frames {
            self.playing = false;
            self.ended = true;
            return None;
        }
        let held: usize = self.samples.len();
        assert(2 * index + 1 < held);
        let at: usize = 2 * index;
        Some((self.samples[at], self.samples[at + 1]))
    }
}

/// What a channel of the device is given of a frame: the even channels the left sample, the odd ones
/// the right one.
pub fn channel_value<T: Copy>(channel: usize, frame: Option<(T, T)>, silence: T) -> (r: T)
    ensures
        r == match frame {
            Some((left, right)) => if channel % 2 == 0 {
                left
            } else {
                right
            },
            None => silence,
        },
{
    match frame {
        Some((left, right)) => if channel % 2 == 0 {
            left
        } else {
            right
        },
        None => silence,
    }
}

/// The left sample of a frame of a block with so many channels.
pub open spec fn left_of<T>(block: Seq<T>, frame: int, channels: int, silence: T) -> T {
    if frame * channels < block.len() {
        block[frame * channels]
    } else {
        silence
    }
}

/// The right sample of a frame of a block with so many channels: the left one where there is no
/// other.
pub open spec fn right_of<T>(block: Seq<T>, frame: int, channels: int, silence: T) -> T {
    if channels > 1 && frame * channels + 1 < block.len() {
        block[frame * channels + 1]
    } else {
        left_of(block, frame, channels, silence)
    }
}

/// The first frames of a block with so many channels, with two samples each.
pub open spec fn stereo<T>(block: Seq<T>, frames: nat, channels: int, silence: T) -> Seq<T> {
    Seq::new(
        2 * frames,
        |i: int|
            if i % 2 == 0 {
                left_of(block, i / 2, channels, silence)
            } else {
                right_of(block, i / 2, channels, silence)
            },
    )
}

/// A frame of a block ends where the block ends, or before.
proof fn lemma_frame_inside(frame: int, frames: int, channels: int)
    by (nonlinear_arith)
    requires
        0 <= frame < frames,
        0 <= channels,
    ensures
        0 <= frame * channels,
        frame * channels + channels <= frames * channels,
{
}

/// Puts the frames of a decoded block behind the samples, two for each frame.
pub fn append_stereo<T: Copy>(
    samples: &mut Vec<T>,
    block: &[T],
    frames: usize,
    channels: usize,
    silence: T,
)
    requires
        frames * channels <= usize::MAX,
    ensures
        final(samples)@ == old(samples)@ + stereo(
            block@,
            frames as nat,
            channels as int,
            silence,
        ),
{
    let ghost before = samples@;
    let mut i: usize = 0;
    assert(samples@ =~= before + stereo(block@, 0, channels as int, silence));
    while i < frames
        invariant
            i <= frames,
            frames * channels <= usize::MAX,
            samples@ == before + stereo(block@, i as nat, channels as int, silence),
        decreases frames - i,
    {
        proof {
            lemma_frame_inside(i as int, frames as int, channels as int);
        }
        let at: usize = i * channels;
        let left: T = if at < block.len() {
            block[at]
        } else {
            silence
        };
        let right: T = if channels > 1 && at + 1 < block.len() {
            block[at + 1]
        } else {
            left
        };
        samples.push(left);
        samples.push(right);
        assert(samples@ =~= before + stereo(
            block@,
            (i + 1) as nat,
            channels as int,
            silence,
        ));
        i += 1;
    }
}

/// How often a jump was repeated.
#[derive(Debug, Clone, Copy)]
pub struct SeekRepeat {
    pub last_ms: Option<u64>,
    pub count: u32,
}

impl SeekRepeat {
    /// Whether a jump comes soon after another.
    pub open spec fn soon(self, now_ms: u64) -> bool {
        self.last_ms matches Some(last) && now_ms - last < SEEK_REPEAT_MS
    }

    /// Notes a jump; says how many came before it without a break.
    pub fn jumped(&mut self, now_ms: u64) -> (r: u32)
        ensures
            final(self).last_ms == Some(now_ms),
            final(self).count == if old(self).soon(now_ms) {
                if old(self).count < u32::MAX {
                    (old(self).count + 1) as u32
                } else {
                    u32::MAX
                }
            } else if old(self).last_ms is Some {
                0
            } else {
                old(self).count
            },
            r == if old(self).soon(now_ms) {
                final(self).count
            } else {
                0
            },
    {
        let mut r: u32 = 0;
        if let Some(last) = self.last_ms {
            if now_ms < last || now_ms - last < SEEK_REPEAT_MS {
                self.count = self.count.saturating_add(1);
                r = self.count;
            } else {
                self.count = 0;
            }
        }
        self.last_ms = Some(now_ms);
        r
    }
}

/// What a jump asks for.
#[derive(Debug, Clone, Copy, PartialEq, Eq, Structural)]
pub enum SeekAction {
    /// There is no recording.
    NoAudio,
    /// Jump in what is held.
    Relative,
    /// Play the recording from where the jump leads.
    Request,
}

/// What a jump asks for.
pub fn seek_action(has_path: bool, has_audio: bool) -> (r: SeekAction)
    ensures
        r == if !has_path {
            SeekAction::NoAudio
        } else if has_audio {
            SeekAction::Relative
        } else {
            SeekAction::Request
        },
{
    if !has_path {
        SeekAction::NoAudio
    } else if has_audio {
        SeekAction::Relative
    } else {
        SeekAction::Request
    }
}

/// The keys that are pressed.
#[derive(Debug, Clone, Copy)]
pub struct PlaybackKeys {
    /// The control or command key.
    pub modifier: bool,
    pub space: bool,
    /// The left arrow or the comma.
    pub back: bool,
    /// The right arrow or the full stop.
    pub forward: bool,
}

/// What the keys ask for.
#[derive(Debug, Clone, Copy)]
pub struct HotkeyPlan {
    pub toggle: Option<ToggleAction>,
    /// A jump, and whether it leads back.
    pub seek: Option<(SeekAction, bool)>,
}

/// What the keys ask for: nothing without a recording or without the control key; back goes before
/// forward; a jump of no length is none.
pub fn handle_hotkeys(
    keys: PlaybackKeys,
    has_path: bool,
    has_audio: bool,
    ended: bool,
    step_is_nonzero: bool,
) -> (r: HotkeyPlan)
    ensures
        r.toggle is Some == (has_path && keys.modifier && keys.space),
        r.toggle matches Some(a) ==> a == if has_audio && !ended {
            ToggleAction::Toggle
        } else {
            ToggleAction::Request
        },
        r.seek is Some == (has_path && keys.modifier && (keys.back || keys.forward)
            && step_is_nonzero),
        r.seek matches Some((a, back)) ==> back == keys.back && a == if has_audio {
            SeekAction::Relative
        } else {
            SeekAction::Request
        },
{
    if !has_path || !keys.modifier {
        return HotkeyPlan { toggle: None, seek: None };
    }
    HotkeyPlan {
        toggle: if keys.space {
            Some(toggle_action(has_path, has_audio, ended))
        } else {
            None
        },
        seek: if (keys.back || keys.forward) && step_is_nonzero {
            Some((seek_action(has_path, has_audio), keys.back))
        } else {
            None
        },
    }
}

/// Where playback is, and how long the recording is, in words.
pub fn playback_label(current: u64, total: u64, ended: bool) -> (r: String)
    ensures
        r@ == hms(current as nat) + " / "@ + hms(total as nat) + if ended {
            " (ended)"@
        } else {
            ""@
        },
{
    let a: String = secs_to_hms(current);
    let b: String = secs_to_hms(total);
    let tail: &str = if ended {
        " (ended)"
    } else {
        ""
    };
    cat4(a.as_str(), " / ", b.as_str(), tail)
}

/// What becomes of a decoded block: its samples come in the order of its frames, two to a frame. With
/// two or more channels these are the first two of the frame, with one it is that one twice; what the
/// block lacks is silence.
pub proof fn lemma_stereo<T>(
    block: Seq<T>,
    frames: nat,
    channels: int,
    silence: T,
    frame: int,
)
    requires
        0 <= frame < frames,
        channels >= 1,
    ensures
        ({
            let out = stereo(block, frames, channels, silence);
            &&& out.len() == 2 * frames
            &&& frame * channels + 1 < block.len() && channels >= 2 ==> out[2 * frame] == block[frame
                * channels] && out[2 * frame + 1] == block[frame * channels + 1]
            &&& frame * channels < block.len() && channels == 1 ==> out[2 * frame] == block[frame]
                && out[2 * frame + 1] == block[frame]
            &&& frame * channels >= block.len() ==> out[2 * frame] == silence && out[2 * frame + 1]
                == silence
        }),
{
    assert(channels == 1 ==> frame * channels == frame) by (nonlinear_arith);
}

} // verus!
