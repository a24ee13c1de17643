//! Deck transport: play/pause against a monotonic clock, cue points, loops,
//! hot cues and beat snapping.
//!
//! The clock is handed in: every transport operation takes `now_ms`, the
//! current reading of a monotonic millisecond clock, and requires it not to
//! run backwards. While playing, the deck keeps the instant `origin_ms` such
//! that the playback position is `now - origin`; while paused it keeps the
//! frozen position itself.

use vstd::prelude::*;

use crate::beatgrid::BeatGrid;
use crate::units::{abs_spec, MS_CAP};
use crate::waveform::WavePoint;

verus! {

/// Number of hot-cue slots on a deck.
pub const HOT_CUE_COUNT: usize = 4;

/// One playback deck.
pub struct Deck {
    pub name: String,
    /// Playback-rate offset in thousandths (full scale is 8 percent).
    pub pitch_milli: i64,
    /// Track length in milliseconds.
    pub duration_ms: i64,
    /// While playing, the clock instant such that position is `now - origin`.
    pub origin_ms: Option<i64>,
    /// While paused, the frozen playback position.
    pub resume_ms: i64,
    pub cue_ms: Option<i64>,
    pub loop_in_ms: Option<i64>,
    pub loop_out_ms: Option<i64>,
    pub hot_cues: Vec<Option<i64>>,
    pub beatgrid: Option<BeatGrid>,
    /// Tempo forced by the user, in thousandths of a BPM.
    pub bpm_override_milli: Option<i64>,
    pub is_master: bool,
    /// Sparse display waveform of the loaded track.
    pub waveform: Option<Vec<WavePoint>>,
    /// Latest clock reading this deck has seen.
    pub last_now_ms: i64,
}

impl Deck {
    /// Every stored time lies in `[0, MS_CAP]` (the playing origin may run
    /// ahead of a seek target, hence its lower bound), there are exactly
    /// `HOT_CUE_COUNT` hot-cue slots, and any grid or override is itself
    /// well formed.
    pub open spec fn wf(self) -> bool {
        &&& -1000 <= self.pitch_milli <= 1000
        &&& 0 <= self.duration_ms <= MS_CAP
        &&& 0 <= self.resume_ms <= MS_CAP
        &&& 0 <= self.last_now_ms <= MS_CAP
        &&& match self.origin_ms {
            Some(o) => -MS_CAP <= o <= self.last_now_ms,
            None => true,
        }
        &&& match self.cue_ms {
            Some(c) => 0 <= c <= MS_CAP,
            None => true,
        }
        &&& match self.loop_in_ms {
            Some(t) => 0 <= t <= MS_CAP,
            None => true,
        }
        &&& match self.loop_out_ms {
            Some(t) => 0 <= t <= MS_CAP,
            None => true,
        }
        &&& self.hot_cues@.len() == HOT_CUE_COUNT
        &&& forall|i: int|
            0 <= i < self.hot_cues@.len() ==> match #[trigger] self.hot_cues@[i] {
                Some(t) => 0 <= t <= MS_CAP,
                None => true,
            }
        &&& match self.beatgrid {
            Some(g) => g.wf(),
            None => true,
        }
        &&& match self.bpm_override_milli {
            Some(b) => 30000 <= b <= 300000,
            None => true,
        }
    }

    /// A loop is armed exactly when both ends are set and in order.
    pub open spec fn loop_armed(self) -> bool {
        match (self.loop_in_ms, self.loop_out_ms) {
            (Some(a), Some(b)) => a < b,
            _ => false,
        }
    }

    /// Position before loop handling: elapsed clock time while playing, the
    /// frozen position while paused.
    pub open spec fn raw_position_spec(self, now: int) -> int {
        match self.origin_ms {
            Some(o) => now - o,
            None => self.resume_ms as int,
        }
    }

    /// The position `position` reports at clock reading `now`: the raw
    /// position wrapped to the loop entry once it passes the loop exit, and
    /// otherwise clamped to the track length.
    pub open spec fn position_spec(self, now: int) -> int {
        let raw = self.raw_position_spec(now);
        if self.loop_armed() {
            if raw > self.loop_out_ms->Some_0 {
                self.loop_in_ms->Some_0 as int
            } else {
                raw
            }
        } else {
            if raw > self.duration_ms {
                self.duration_ms as int
            } else {
                raw
            }
        }
    }

    /// The beat of the grid nearest to `t`, scanning left to right and
    /// keeping the earlier beat on ties; `t` itself when no grid or an empty
    /// one is loaded.
    pub open spec fn snap_spec(self, t: int) -> int {
        match self.beatgrid {
            Some(g) => if g.beats@.len() == 0 {
                t
            } else {
                snap_scan(g.beats@, 1, g.beats@[0] as int, t)
            },
            None => t,
        }
    }

    /// The tempo in force: the user override, else the grid's estimate, else
    /// the default.
    pub open spec fn effective_bpm_spec(self) -> int {
        match self.bpm_override_milli {
            Some(b) => b as int,
            None => match self.beatgrid {
                Some(g) => g.bpm_milli as int,
                None => crate::beatgrid::DEFAULT_BPM_MILLI as int,
            },
        }
    }

    /// A fresh, silent, empty deck.
    pub fn new(name: &str) -> (d: Deck)
        ensures
            d.wf(),
            d.name@ == name@,
            d.pitch_milli == 0,
            d.duration_ms == 0,
            d.origin_ms is None,
            d.resume_ms == 0,
            d.cue_ms is None,
            d.loop_in_ms is None,
            d.loop_out_ms is None,
            forall|i: int| 0 <= i < HOT_CUE_COUNT ==> #[trigger] d.hot_cues@[i] is None,
            d.beatgrid is None,
            d.bpm_override_milli is None,
            !d.is_master,
            d.waveform is None,
            d.last_now_ms == 0,
    {
        let mut hot_cues: Vec<Option<i64>> = Vec::new();
        hot_cues.push(None);
        hot_cues.push(None);
        hot_cues.push(None);
        hot_cues.push(None);
        Deck {
            name: name.to_owned(),
            pitch_milli: 0,
            duration_ms: 0,
            origin_ms: None,
            resume_ms: 0,
            cue_ms: None,
            loop_in_ms: None,
            loop_out_ms: None,
            hot_cues,
            beatgrid: None,
            bpm_override_milli: None,
            is_master: false,
            waveform: None,
            last_now_ms: 0,
        }
    }

    /// Install a newly analysed track: set its length, grid and waveform,
    /// clear the markers of the previous track, and start playing from the
    /// top.
    pub fn load_track(
        &mut self,
        now_ms: i64,
        duration_ms: i64,
        beatgrid: Option<BeatGrid>,
        waveform: Option<Vec<WavePoint>>,
    )
        requires
            old(self).wf(),
            old(self).last_now_ms <= now_ms <= MS_CAP,
            0 <= duration_ms <= MS_CAP,
            match beatgrid {
                Some(g) => g.wf(),
                None => true,
            },
        ensures
            final(self).wf(),
            final(self).name == old(self).name,
            final(self).pitch_milli == old(self).pitch_milli,
            final(self).duration_ms == duration_ms,
            final(self).origin_ms == Some(now_ms),
            final(self).resume_ms == 0,
            final(self).cue_ms is None,
            final(self).loop_in_ms is None,
            final(self).loop_out_ms is None,
            forall|i: int| 0 <= i < HOT_CUE_COUNT ==> #[trigger] final(self).hot_cues@[i] is None,
            final(self).beatgrid == beatgrid,
            final(self).bpm_override_milli == old(self).bpm_override_milli,
            final(self).is_master == old(self).is_master,
            final(self).waveform == waveform,
            final(self).last_now_ms == now_ms,
            final(self).position_spec(now_ms as int) == 0,
    {
        self.duration_ms = duration_ms;
        self.origin_ms = Some(now_ms);
        self.resume_ms = 0;
        self.cue_ms = None;
        self.loop_in_ms = None;
        self.loop_out_ms = None;
        let mut hot_cues: Vec<Option<i64>> = Vec::new();
        hot_cues.push(None);
        hot_cues.push(None);
        hot_cues.push(None);
        hot_cues.push(None);
        self.hot_cues = hot_cues;
        self.beatgrid = beatgrid;
        self.waveform = waveform;
        self.last_now_ms = now_ms;
    }

    /// Start the clock if it is not running; a second call changes nothing.
    /// The reported position is unchanged by the call.
    pub fn play(&mut self, now_ms: i64)
        requires
            old(self).wf(),
            old(self).last_now_ms <= now_ms <= MS_CAP,
        ensures
            final(self).wf(),
            final(self).origin_ms is Some,
            old(self).origin_ms is Some ==> final(self).origin_ms == old(self).origin_ms,
            old(self).origin_ms is None ==> final(self).origin_ms == Some(
                (now_ms - old(self).resume_ms) as i64,
            ),
            final(self).position_spec(now_ms as int) == old(self).position_spec(now_ms as int),
            *final(self) == (Deck {
                origin_ms: final(self).origin_ms,
                last_now_ms: now_ms,
                ..*old(self)
            }),
    {
        if self.origin_ms.is_none() {
            self.origin_ms = Some(now_ms - self.resume_ms);
        }
        self.last_now_ms = now_ms;
    }

    /// Freeze the current position and stop the clock; a second call changes
    /// nothing. The reported position is unchanged by the call.
    pub fn pause(&mut self, now_ms: i64)
        requires
            old(self).wf(),
            old(self).last_now_ms <= now_ms <= MS_CAP,
        ensures
            final(self).wf(),
            final(self).origin_ms is None,
            final(self).resume_ms == old(self).position_spec(now_ms as int),
            final(self).position_spec(now_ms as int) == old(self).position_spec(now_ms as int),
            *final(self) == (Deck {
                origin_ms: None,
                resume_ms: final(self).resume_ms,
                last_now_ms: now_ms,
                ..*old(self)
            }),
    {
        let pos = self.playback_position(now_ms);
        self.resume_ms = pos;
        self.origin_ms = None;
    }

    /// The playback position at clock reading `now_ms`, wrapping into the
    /// loop when one is armed and the raw position has passed its exit, and
    /// clamped to the track length otherwise. Never exceeds the loop exit
    /// while a loop is armed.
    pub fn playback_position(&mut self, now_ms: i64) -> (pos: i64)
        requires
            old(self).wf(),
            old(self).last_now_ms <= now_ms <= MS_CAP,
        ensures
            final(self).wf(),
            pos == old(self).position_spec(now_ms as int),
            0 <= pos <= MS_CAP,
            final(self).position_spec(now_ms as int) == pos,
            old(self).loop_armed() ==> pos <= old(self).loop_out_ms->Some_0,
            final(self).origin_ms is Some <==> old(self).origin_ms is Some,
            *final(self) == (Deck {
                origin_ms: final(self).origin_ms,
                resume_ms: final(self).resume_ms,
                last_now_ms: now_ms,
                ..*old(self)
            }),
    {
        let raw: i64 = match self.origin_ms {
            Some(o) => now_ms - o,
            None => self.resume_ms,
        };
        let armed = match (self.loop_in_ms, self.loop_out_ms) {
            (Some(a), Some(b)) => a < b,
            _ => false,
        };
        let pos: i64;
        if armed {
            let lin = match self.loop_in_ms {
                Some(a) => a,
                None => 0,
            };
            let lout = match self.loop_out_ms {
                Some(b) => b,
                None => 0,
            };
            if raw > lout {
                // Wrap: rewind the origin so the position restarts at the
                // loop entry.
                if self.origin_ms.is_some() {
                    self.origin_ms = Some(now_ms - lin);
                } else {
                    self.resume_ms = lin;
                }
                pos = lin;
            } else {
                pos = raw;
            }
        } else {
            pos = if raw > self.duration_ms {
                self.duration_ms
            } else {
                raw
            };
        }
        self.last_now_ms = now_ms;
        pos
    }

    /// Mark the cue point at the current position.
    pub fn set_cue(&mut self, now_ms: i64)
        requires
            old(self).wf(),
            old(self).last_now_ms <= now_ms <= MS_CAP,
        ensures
            final(self).wf(),
            final(self).cue_ms == Some((old(self).position_spec(now_ms as int)) as i64),
            *final(self) == (Deck {
                cue_ms: final(self).cue_ms,
                origin_ms: final(self).origin_ms,
                resume_ms: final(self).resume_ms,
                last_now_ms: now_ms,
                ..*old(self)
            }),
    {
        let pos = self.playback_position(now_ms);
        self.cue_ms = Some(pos);
    }

    /// Seek to the beat-snapped cue point, if one is set, by rewriting the
    /// playing origin (or the frozen position while paused).
    pub fn jump_to_cue(&mut self, now_ms: i64)
        requires
            old(self).wf(),
            old(self).last_now_ms <= now_ms <= MS_CAP,
        ensures
            final(self).wf(),
            old(self).cue_ms is None ==> *final(self) == (Deck {
                last_now_ms: now_ms,
                ..*old(self)
            }),
            old(self).cue_ms matches Some(c) ==> final(self).raw_position_spec(now_ms as int)
                == old(self).snap_spec(c as int) && *final(self) == (Deck {
                origin_ms: final(self).origin_ms,
                resume_ms: final(self).resume_ms,
                last_now_ms: now_ms,
                ..*old(self)
            }),
    {
        match self.cue_ms {
            Some(c) => {
                let s = self.snap_to_beat(c);
                self.seek_to(now_ms, s);
            },
            None => {
                self.last_now_ms = now_ms;
            },
        }
    }

    /// Mark hot cue `index` at the current position.
    pub fn set_hot_cue(&mut self, index: usize, now_ms: i64)
        requires
            old(self).wf(),
            index < HOT_CUE_COUNT,
            old(self).last_now_ms <= now_ms <= MS_CAP,
        ensures
            final(self).wf(),
            final(self).hot_cues@ == old(self).hot_cues@.update(
                index as int,
                Some((old(self).position_spec(now_ms as int)) as i64),
            ),
            *final(self) == (Deck {
                hot_cues: final(self).hot_cues,
                origin_ms: final(self).origin_ms,
                resume_ms: final(self).resume_ms,
                last_now_ms: now_ms,
                ..*old(self)
            }),
    {
        let pos = self.playback_position(now_ms);
        self.hot_cues[index] = Some(pos);
    }

    /// Seek to the beat-snapped hot cue `index`, if that slot is set.
    pub fn jump_to_hot_cue(&mut self, index: usize, now_ms: i64)
        requires
            old(self).wf(),
            index < HOT_CUE_COUNT,
            old(self).last_now_ms <= now_ms <= MS_CAP,
        ensures
            final(self).wf(),
            old(self).hot_cues@[index as int] is None ==> *final(self) == (Deck {
                last_now_ms: now_ms,
                ..*old(self)
            }),
            old(self).hot_cues@[index as int] matches Some(h) ==> final(self).raw_position_spec(
                now_ms as int,
            ) == old(self).snap_spec(h as int) && *final(self) == (Deck {
                origin_ms: final(self).origin_ms,
                resume_ms: final(self).resume_ms,
                last_now_ms: now_ms,
                ..*old(self)
            }),
    {
        match self.hot_cues[index] {
            Some(h) => {
                let s = self.snap_to_beat(h);
                self.seek_to(now_ms, s);
            },
            None => {
                self.last_now_ms = now_ms;
            },
        }
    }

    /// Mark the loop entry at the current position.
    pub fn set_loop_in(&mut self, now_ms: i64)
        requires
            old(self).wf(),
            old(self).last_now_ms <= now_ms <= MS_CAP,
        ensures
            final(self).wf(),
            final(self).loop_in_ms == Some((old(self).position_spec(now_ms as int)) as i64),
            *final(self) == (Deck {
                loop_in_ms: final(self).loop_in_ms,
                origin_ms: final(self).origin_ms,
                resume_ms: final(self).resume_ms,
                last_now_ms: now_ms,
                ..*old(self)
            }),
    {
        let pos = self.playback_position(now_ms);
        self.loop_in_ms = Some(pos);
    }

    /// Mark the loop exit at the current position.
    pub fn set_loop_out(&mut self, now_ms: i64)
        requires
            old(self).wf(),
            old(self).last_now_ms <= now_ms <= MS_CAP,
        ensures
            final(self).wf(),
            final(self).loop_out_ms == Some((old(self).position_spec(now_ms as int)) as i64),
            *final(self) == (Deck {
                loop_out_ms: final(self).loop_out_ms,
                origin_ms: final(self).origin_ms,
                resume_ms: final(self).resume_ms,
                last_now_ms: now_ms,
                ..*old(self)
            }),
    {
        let pos = self.playback_position(now_ms);
        self.loop_out_ms = Some(pos);
    }

    /// Disarm the loop.
    pub fn clear_loop(&mut self)
        requires
            old(self).wf(),
        ensures
            final(self).wf(),
            !final(self).loop_armed(),
            *final(self) == (Deck { loop_in_ms: None, loop_out_ms: None, ..*old(self) }),
    {
        self.loop_in_ms = None;
        self.loop_out_ms = None;
    }

    /// Set the pitch offset, clamping out-of-range values silently.
    pub fn set_pitch(&mut self, pitch_milli: i64)
        requires
            old(self).wf(),
        ensures
            final(self).wf(),
            final(self).pitch_milli as int == crate::units::clamp_spec(
                pitch_milli as int,
                -1000,
                1000,
            ),
            *final(self) == (Deck { pitch_milli: final(self).pitch_milli, ..*old(self) }),
    {
        self.pitch_milli = crate::units::clamp64(pitch_milli, -1000, 1000);
    }

    /// Force or release the tempo override, clamping a forced tempo into the
    /// valid band silently.
    pub fn set_bpm_override(&mut self, bpm_milli: Option<i64>)
        requires
            old(self).wf(),
        ensures
            final(self).wf(),
            bpm_milli is None ==> final(self).bpm_override_milli is None,
            bpm_milli matches Some(b) ==> final(self).bpm_override_milli == Some(
                (crate::units::clamp_spec(b as int, 30000, 300000)) as i64,
            ),
            *final(self) == (Deck {
                bpm_override_milli: final(self).bpm_override_milli,
                ..*old(self)
            }),
    {
        match bpm_milli {
            Some(b) => {
                self.bpm_override_milli = Some(crate::units::clamp64(b, 30000, 300000));
            },
            None => {
                self.bpm_override_milli = None;
            },
        }
    }

    /// Mark or unmark this deck as the sync master.
    pub fn set_master(&mut self, is_master: bool)
        requires
            old(self).wf(),
        ensures
            final(self).wf(),
            *final(self) == (Deck { is_master: is_master, ..*old(self) }),
    {
        self.is_master = is_master;
    }

    /// The beat nearest to `t`, or `t` itself when no usable grid is loaded.
    pub fn snap_to_beat(&self, t: i64) -> (r: i64)
        requires
            self.wf(),
            0 <= t <= MS_CAP,
        ensures
            r as int == self.snap_spec(t as int),
            0 <= r <= MS_CAP,
            match self.beatgrid {
                Some(g) => g.beats@.len() == 0 ==> r == t,
                None => r == t,
            },
            match self.beatgrid {
                Some(g) => g.beats@.len() > 0 ==> exists|idx: int|
                    0 <= idx < g.beats@.len() && r == g.beats@[idx],
                None => true,
            },
            match self.beatgrid {
                Some(g) => forall|idx: int|
                    0 <= idx < g.beats@.len() ==> abs_spec(r - t) <= abs_spec(
                        #[trigger] g.beats@[idx] - t,
                    ),
                None => true,
            },
    {
        match &self.beatgrid {
            Some(g) => {
                if g.beats.len() == 0 {
                    t
                } else {
                    let ghost bs = g.beats@;
                    proof {
                        assert(forall|idx: int|
                            0 <= idx < bs.len() ==> 0 <= #[trigger] bs[idx] <= MS_CAP);
                    }
                    let mut closest = g.beats[0];
                    let mut k: usize = 1;
                    while k < g.beats.len()
                        invariant
                            g.beats@ == bs,
                            0 <= t <= MS_CAP,
                            1 <= k <= bs.len(),
                            forall|idx: int|
                                0 <= idx < bs.len() ==> 0 <= #[trigger] bs[idx] <= MS_CAP,
                            exists|idx: int| 0 <= idx < bs.len() && closest == bs[idx],
                            0 <= closest <= MS_CAP,
                            forall|idx: int|
                                0 <= idx < k ==> abs_spec(closest - t) <= abs_spec(
                                    #[trigger] bs[idx] - t,
                                ),
                            snap_scan(bs, k as int, closest as int, t as int) == snap_scan(
                                bs,
                                1,
                                bs[0] as int,
                                t as int,
                            ),
                        decreases bs.len() - k,
                    {
                        let b = g.beats[k];
                        let db = crate::units::dist64(b, t);
                        let dc = crate::units::dist64(closest, t);
                        if db < dc {
                            closest = b;
                        }
                        k += 1;
                    }
                    closest
                }
            },
            None => t,
        }
    }

    /// The tempo in force: override, else grid, else default.
    pub fn effective_bpm(&self) -> (r: i64)
        requires
            self.wf(),
        ensures
            r as int == self.effective_bpm_spec(),
            30000 <= r <= 300000,
    {
        match self.bpm_override_milli {
            Some(b) => b,
            None => match &self.beatgrid {
                Some(g) => g.bpm_milli,
                None => crate::beatgrid::DEFAULT_BPM_MILLI,
            },
        }
    }

    /// Rewrite the transport so the position becomes `target` at `now_ms`.
    fn seek_to(&mut self, now_ms: i64, target: i64)
        requires
            old(self).wf(),
            old(self).last_now_ms <= now_ms <= MS_CAP,
            0 <= target <= MS_CAP,
        ensures
            final(self).wf(),
            final(self).raw_position_spec(now_ms as int) == target,
            final(self).origin_ms is Some <==> old(self).origin_ms is Some,
            *final(self) == (Deck {
                origin_ms: final(self).origin_ms,
                resume_ms: final(self).resume_ms,
                last_now_ms: now_ms,
                ..*old(self)
            }),
    {
        if self.origin_ms.is_some() {
            self.origin_ms = Some(now_ms - target);
        } else {
            self.resume_ms = target;
        }
        self.last_now_ms = now_ms;
    }
}

/// After a seek to the beat-snapped cue point, the deck reports exactly that
/// snapped time: any deck whose raw position equals the snap target, with the
/// same loop region and track length, reads it back unchanged, as long as the
/// target lies within the track and not past an armed loop's exit.
pub proof fn lemma_cue_round_trip(d: Deck, now: int)
    requires
        d.wf(),
        d.cue_ms is Some,
        0 <= d.snap_spec(d.cue_ms->Some_0 as int),
        d.snap_spec(d.cue_ms->Some_0 as int) <= d.duration_ms,
        d.loop_armed() ==> d.snap_spec(d.cue_ms->Some_0 as int) <= d.loop_out_ms->Some_0,
    ensures
        forall|d2: Deck|
            (#[trigger] d2.raw_position_spec(now)) == d.snap_spec(d.cue_ms->Some_0 as int)
                && d2.loop_in_ms == d.loop_in_ms && d2.loop_out_ms == d.loop_out_ms
                && d2.duration_ms == d.duration_ms ==> d2.position_spec(now) == d.snap_spec(
                d.cue_ms->Some_0 as int,
            ),
{
}

/// Left-to-right scan for the nearest beat, keeping the earlier beat on ties.
pub open spec fn snap_scan(beats: Seq<i64>, k: int, cur: int, t: int) -> int
    decreases beats.len() - k,
{
    if k < 0 || k >= beats.len() {
        cur
    } else {
        snap_scan(
            beats,
            k + 1,
            if abs_spec(beats[k] - t) < abs_spec(cur - t) {
                beats[k] as int
            } else {
                cur
            },
            t,
        )
    }
}

} // verus!
