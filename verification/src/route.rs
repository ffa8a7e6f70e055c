//! Routes and per-neighbour link quality.
//!
//! All timestamps are milliseconds of a single monotonic clock, handed in
//! by the caller; the library never reads a clock itself.

use vstd::prelude::*;

use crate::device::clamp_byte;
use crate::device::Uid;

pub mod routing_table;

verus! {

/// Age of a timestamp in whole seconds; a timestamp in the future has age
/// zero.
pub open spec fn spec_age_seconds(then_ms: u64, now_ms: u64) -> int {
    if now_ms >= then_ms {
        (now_ms - then_ms) / 1000
    } else {
        0
    }
}

/// One known path towards a destination.
#[derive(Clone, Copy, Debug, PartialEq, Eq, Structural)]
pub struct Route {
    /// The neighbour to hand the message to.
    pub next_hop: Uid,
    /// Number of hops to the destination.
    pub hop_count: u8,
    /// Quality score, 0-255, higher is better.
    pub quality: u8,
    /// When this route was last updated (ms).
    pub last_updated: u64,
    /// Whether this route is currently usable.
    pub is_active: bool,
}

impl Route {
    /// A fresh active route with no quality information yet.
    pub fn new(next_hop: Uid, hop_count: u8, now_ms: u64) -> (r: Route)
        ensures
            r == (Route {
                next_hop,
                hop_count,
                quality: 0u8,
                last_updated: now_ms,
                is_active: true,
            }),
    {
        Route { next_hop, hop_count, quality: 0, last_updated: now_ms, is_active: true }
    }

    /// A fresh active route with a known quality score.
    pub fn with_quality(next_hop: Uid, hop_count: u8, quality: u8, now_ms: u64) -> (r: Route)
        ensures
            r == (Route { next_hop, hop_count, quality, last_updated: now_ms, is_active: true }),
    {
        Route { next_hop, hop_count, quality, last_updated: now_ms, is_active: true }
    }

    /// Refreshes the update timestamp.
    pub fn touch(&mut self, now_ms: u64)
        ensures
            *final(self) == (Route { last_updated: now_ms, ..*old(self) }),
    {
        self.last_updated = now_ms;
    }

    /// Whether the route is older than `ttl_seconds`.
    pub open spec fn spec_is_expired(self, ttl_seconds: u64, now_ms: u64) -> bool {
        spec_age_seconds(self.last_updated, now_ms) > ttl_seconds
    }

    /// Whether the route is older than `ttl_seconds`.
    pub fn is_expired(&self, ttl_seconds: u64, now_ms: u64) -> (r: bool)
        ensures
            r == self.spec_is_expired(ttl_seconds, now_ms),
    {
        let age_ms = if now_ms >= self.last_updated {
            now_ms - self.last_updated
        } else {
            0
        };
        age_ms / 1000 > ttl_seconds
    }
}

/// Truncating division by four (towards zero, as the hardware divides).
pub open spec fn div4_toward_zero(v: int) -> int {
    if v >= 0 {
        v / 4
    } else {
        -((-v) / 4)
    }
}

/// Smoothed signal metrics and delivery outcome rates for one neighbour
/// heard directly.
#[derive(Clone, Copy, Debug, PartialEq, Eq, Structural)]
pub struct LinkQuality {
    /// Smoothed received signal strength (dBm).
    pub rssi: i16,
    /// Smoothed signal-to-noise ratio (dB).
    pub snr: i16,
    /// Delivery success rate, 0-100.
    pub success_rate: u8,
    /// Delivery failure rate, 0-100.
    pub failure_rate: u8,
    /// When this link was last used (ms).
    pub last_used: u64,
}

/// Quality score of a link: normalized RSSI and SNR and the success rate,
/// weighted towards SNR and delivery outcome.
pub open spec fn spec_link_quality(link: LinkQuality) -> int {
    (clamp_byte((link.rssi + 130) * 2) + 3 * clamp_byte((link.snr + 20) * 4) + 4
        * link.success_rate) / 8
}

impl LinkQuality {
    /// A fresh link record starting from perfect delivery rates.
    pub fn new(rssi: i16, snr: i16, now_ms: u64) -> (r: LinkQuality)
        ensures
            r == (LinkQuality {
                rssi,
                snr,
                success_rate: 100u8,
                failure_rate: 0u8,
                last_used: now_ms,
            }),
    {
        LinkQuality { rssi, snr, success_rate: 100, failure_rate: 0, last_used: now_ms }
    }

    /// Computes the quality score of this link.
    pub fn calculate_quality(&self) -> (r: u8)
        ensures
            r == spec_link_quality(*self),
    {
        let rssi_wide: i32 = (self.rssi as i32 + 130) * 2;
        let snr_wide: i32 = (self.snr as i32 + 20) * 4;
        let rssi_norm: i32 = if rssi_wide < 0 {
            0
        } else if rssi_wide > 255 {
            255
        } else {
            rssi_wide
        };
        let snr_norm: i32 = if snr_wide < 0 {
            0
        } else if snr_wide > 255 {
            255
        } else {
            snr_wide
        };
        ((rssi_norm + 3 * snr_norm + 4 * (self.success_rate as i32)) / 8) as u8
    }

    /// Records a delivered message: the success rate rises (to at most
    /// 100), the failure rate falls.
    pub fn record_success(&mut self, now_ms: u64)
        ensures
            final(self).success_rate == (if old(self).success_rate < 100 {
                if old(self).success_rate + 5 <= 100 {
                    (old(self).success_rate + 5) as u8
                } else {
                    100u8
                }
            } else {
                old(self).success_rate
            }),
            final(self).failure_rate == (if old(self).failure_rate >= 5 {
                (old(self).failure_rate - 5) as u8
            } else {
                0u8
            }),
            final(self).rssi == old(self).rssi,
            final(self).snr == old(self).snr,
            final(self).last_used == now_ms,
    {
        if self.success_rate < 100 {
            let bumped = if self.success_rate <= 95 {
                self.success_rate + 5
            } else {
                100
            };
            self.success_rate = if bumped <= 100 {
                bumped
            } else {
                100
            };
        }
        self.failure_rate = if self.failure_rate >= 5 {
            self.failure_rate - 5
        } else {
            0
        };
        self.last_used = now_ms;
    }

    /// Records a failed delivery: the failure rate rises (to at most 100),
    /// the success rate falls.
    pub fn record_failure(&mut self, now_ms: u64)
        ensures
            final(self).failure_rate == (if old(self).failure_rate < 100 {
                if old(self).failure_rate + 10 <= 100 {
                    (old(self).failure_rate + 10) as u8
                } else {
                    100u8
                }
            } else {
                old(self).failure_rate
            }),
            final(self).success_rate == (if old(self).success_rate >= 10 {
                (old(self).success_rate - 10) as u8
            } else {
                0u8
            }),
            final(self).rssi == old(self).rssi,
            final(self).snr == old(self).snr,
            final(self).last_used == now_ms,
    {
        if self.failure_rate < 100 {
            let bumped = if self.failure_rate <= 90 {
                self.failure_rate + 10
            } else {
                100
            };
            self.failure_rate = if bumped <= 100 {
                bumped
            } else {
                100
            };
        }
        self.success_rate = if self.success_rate >= 10 {
            self.success_rate - 10
        } else {
            0
        };
        self.last_used = now_ms;
    }

    /// Folds a new signal sample into the smoothed metrics: three parts
    /// history, one part sample.
    pub fn update_signal_metrics(&mut self, rssi: i16, snr: i16, now_ms: u64)
        ensures
            final(self).rssi == div4_toward_zero(3 * old(self).rssi + rssi),
            final(self).snr == div4_toward_zero(3 * old(self).snr + snr),
            final(self).success_rate == old(self).success_rate,
            final(self).failure_rate == old(self).failure_rate,
            final(self).last_used == now_ms,
    {
        self.rssi = smooth4(self.rssi, rssi);
        self.snr = smooth4(self.snr, snr);
        self.last_used = now_ms;
    }
}

/// Computes `(3 * history + sample) / 4` with truncation towards zero.
fn smooth4(history: i16, sample: i16) -> (r: i16)
    ensures
        r == div4_toward_zero(3 * history + sample),
{
    let sum: i32 = 3 * (history as i32) + (sample as i32);
    let q: i32 = if sum >= 0 {
        sum / 4
    } else {
        -((-sum) / 4)
    };
    q as i16
}

/// A better signal-to-noise ratio never lowers the link quality score:
/// the score is monotonic in SNR.
pub proof fn lemma_quality_monotonic_in_snr(l1: LinkQuality, l2: LinkQuality)
    requires
        l1.rssi == l2.rssi,
        l1.success_rate == l2.success_rate,
        l1.snr <= l2.snr,
    ensures
        spec_link_quality(l1) <= spec_link_quality(l2),
{
    let a = clamp_byte((l1.rssi + 130) * 2) + 3 * clamp_byte((l1.snr + 20) * 4) + 4
        * l1.success_rate;
    let b = clamp_byte((l2.rssi + 130) * 2) + 3 * clamp_byte((l2.snr + 20) * 4) + 4
        * l2.success_rate;
    assert(a <= b);
    vstd::arithmetic::div_mod::lemma_div_is_ordered(a, b, 8);
}

/// A better delivery success rate never lowers the link quality score:
/// the score is monotonic in the success rate.
pub proof fn lemma_quality_monotonic_in_success(l1: LinkQuality, l2: LinkQuality)
    requires
        l1.rssi == l2.rssi,
        l1.snr == l2.snr,
        l1.success_rate <= l2.success_rate,
    ensures
        spec_link_quality(l1) <= spec_link_quality(l2),
{
    let a = clamp_byte((l1.rssi + 130) * 2) + 3 * clamp_byte((l1.snr + 20) * 4) + 4
        * l1.success_rate;
    let b = clamp_byte((l2.rssi + 130) * 2) + 3 * clamp_byte((l2.snr + 20) * 4) + 4
        * l2.success_rate;
    assert(a <= b);
    vstd::arithmetic::div_mod::lemma_div_is_ordered(a, b, 8);
}

/// Counters and averages over the routing table.
#[derive(Debug, Copy, Clone, PartialEq, Eq, Structural)]
pub struct RoutingStats {
    pub total_entries: usize,
    pub active_routes: usize,
    pub expired_routes: usize,
    pub avg_hop_count: usize,
    pub avg_quality: u8,
}

} // verus!
