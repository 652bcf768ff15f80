//! The bookkeeping of the sensor connectivity test: what each read, parse
//! and frame does to the counters, when the test gives up on a silent or
//! failing sensor, and when it has shown enough frames.

use vstd::prelude::*;

verus! {

/// The number of consecutive failed reads after which the next failure
/// ends the test.
pub const GIVE_UP_AFTER_ERRORS: u32 = 10;

/// Counters of a connectivity test.
#[derive(Debug, Clone, Copy, PartialEq, Eq, Structural)]
pub struct ConnectTestStats {
    pub packets_received: u64,
    pub bad_packets: u64,
    pub frames_emitted: u64,
    pub consecutive_errors: u32,
    pub warmup_errors: u64,
    pub has_received_good_packet: bool,
}

/// How a failed read is counted.
#[derive(Debug, Clone, Copy, PartialEq, Eq, Structural)]
pub enum ReadFailure {
    /// No packet has arrived yet: the sensor may still be starting.
    Warmup,
    /// Packets arrived before: this one is bad.
    BadPacket,
}

/// What the test does after a failed read.
#[derive(Debug, Clone, Copy, PartialEq, Eq, Structural)]
pub enum ReadStep {
    /// Read again.
    Retry,
    /// Stop reading and print the summary.
    GiveUp,
}

/// What the test does with a frame the pipeline emitted.
#[derive(Debug, Clone, Copy, PartialEq, Eq, Structural)]
pub enum FrameStep {
    /// An empty frame: ignore it.
    Skip,
    /// Show it and keep reading.
    Show,
    /// Show it: it is the last one wanted.
    ShowAndFinish,
}

impl ConnectTestStats {
    /// The consecutive-failure count never passes the limit.
    pub open spec fn wf(self) -> bool {
        self.consecutive_errors <= GIVE_UP_AFTER_ERRORS
    }

    /// Nothing counted yet.
    pub fn new() -> (r: Self)
        ensures
            r == (ConnectTestStats {
                packets_received: 0,
                bad_packets: 0,
                frames_emitted: 0,
                consecutive_errors: 0,
                warmup_errors: 0,
                has_received_good_packet: false,
            }),
            r.wf(),
    {
        ConnectTestStats {
            packets_received: 0,
            bad_packets: 0,
            frames_emitted: 0,
            consecutive_errors: 0,
            warmup_errors: 0,
            has_received_good_packet: false,
        }
    }

    /// Counts a packet that was read: the sensor is sending, and the run
    /// of failures is over.
    pub fn on_packet(&mut self)
        requires
            old(self).packets_received < u64::MAX,
        ensures
            *final(self) == (ConnectTestStats {
                packets_received: (old(self).packets_received + 1) as u64,
                has_received_good_packet: true,
                consecutive_errors: 0,
                ..*old(self)
            }),
            final(self).wf(),
    {
        self.packets_received = self.packets_received + 1;
        self.has_received_good_packet = true;
        self.consecutive_errors = 0;
    }

    /// Counts a failed read: as a warm-up wait until a packet has arrived,
    /// as a bad packet after. A failure that follows the limit of
    /// consecutive failures ends the test.
    pub fn on_read_error(&mut self) -> (r: (ReadFailure, ReadStep))
        requires
            old(self).wf(),
            old(self).packets_received < u64::MAX,
            old(self).bad_packets < u64::MAX,
            old(self).warmup_errors < u64::MAX,
        ensures
            final(self).wf(),
            final(self).packets_received == old(self).packets_received + 1,
            final(self).frames_emitted == old(self).frames_emitted,
            final(self).has_received_good_packet == old(self).has_received_good_packet,
            old(self).has_received_good_packet ==> r.0 == ReadFailure::BadPacket
                && final(self).bad_packets == old(self).bad_packets + 1
                && final(self).warmup_errors == old(self).warmup_errors,
            !old(self).has_received_good_packet ==> r.0 == ReadFailure::Warmup
                && final(self).warmup_errors == old(self).warmup_errors + 1
                && final(self).bad_packets == old(self).bad_packets,
            old(self).consecutive_errors >= GIVE_UP_AFTER_ERRORS ==> r.1 == ReadStep::GiveUp
                && final(self).consecutive_errors == old(self).consecutive_errors,
            old(self).consecutive_errors < GIVE_UP_AFTER_ERRORS ==> r.1 == ReadStep::Retry
                && final(self).consecutive_errors == old(self).consecutive_errors + 1,
    {
        self.packets_received = self.packets_received + 1;
        let failure = if self.has_received_good_packet {
            self.bad_packets = self.bad_packets + 1;
            ReadFailure::BadPacket
        } else {
            self.warmup_errors = self.warmup_errors + 1;
            ReadFailure::Warmup
        };
        if self.consecutive_errors >= GIVE_UP_AFTER_ERRORS {
            return (failure, ReadStep::GiveUp);
        }
        self.consecutive_errors = self.consecutive_errors + 1;
        (failure, ReadStep::Retry)
    }

    /// Counts a packet the pipeline refused.
    pub fn on_parse_error(&mut self)
        requires
            old(self).bad_packets < u64::MAX,
        ensures
            *final(self) == (ConnectTestStats { bad_packets: (old(self).bad_packets + 1) as u64, ..*old(self) }),
    {
        self.bad_packets = self.bad_packets + 1;
    }

    /// Counts a frame of `point_count` points: empty frames are skipped,
    /// and the test finishes with the frame that reaches `max_frames`.
    pub fn on_frame(&mut self, point_count: usize, max_frames: u64) -> (r: FrameStep)
        requires
            old(self).frames_emitted < u64::MAX,
        ensures
            point_count == 0 ==> r == FrameStep::Skip && *final(self) == *old(self),
            point_count > 0 ==> *final(self) == (ConnectTestStats {
                frames_emitted: (old(self).frames_emitted + 1) as u64,
                ..*old(self)
            }) && r == if final(self).frames_emitted >= max_frames {
                FrameStep::ShowAndFinish
            } else {
                FrameStep::Show
            },
    {
        if point_count == 0 {
            return FrameStep::Skip;
        }
        self.frames_emitted = self.frames_emitted + 1;
        if self.frames_emitted >= max_frames {
            FrameStep::ShowAndFinish
        } else {
            FrameStep::Show
        }
    }

    /// The packets that were neither failed reads after warm-up nor refused
    /// by the pipeline (never below zero).
    pub fn good_packets(&self) -> (r: u64)
        ensures
            r == if self.packets_received >= self.bad_packets {
                self.packets_received - self.bad_packets
            } else {
                0
            },
    {
        self.packets_received.saturating_sub(self.bad_packets)
    }
}

impl Default for ConnectTestStats {
    fn default() -> (r: Self)
        ensures
            r == (ConnectTestStats {
                packets_received: 0,
                bad_packets: 0,
                frames_emitted: 0,
                consecutive_errors: 0,
                warmup_errors: 0,
                has_received_good_packet: false,
            }),
    {
        ConnectTestStats::new()
    }
}

/// How many of a frame's points are listed, at most `max_points`, and how
/// many are left out.
pub fn points_to_show(point_count: usize, max_points: usize) -> (r: (usize, usize))
    ensures
        r.0 == if max_points < point_count { max_points } else { point_count },
        r.0 + r.1 == point_count,
{
    let shown = if max_points < point_count { max_points } else { point_count };
    (shown, point_count - shown)
}

} // verus!
