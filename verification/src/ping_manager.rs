//! Pings, their answers, and the round trip time they measure.

use crate::packet_reader::PacketReader;
use crate::packet_writer::{PacketWriter, PacketWriterView};
use crate::timer::{spec_fire_time, Timer};
use crate::wire::{spec_read_u64, spec_read_u8};
use vstd::prelude::*;

verus! {

/// The kind of a ping block that asks for an answer.
pub const PING: u8 = 0;

/// The kind of a ping block that answers.
pub const PONG: u8 = 1;

/// The sum of `samples`.
pub open spec fn spec_sum(samples: Seq<u64>) -> nat
    decreases samples.len(),
{
    if samples.len() == 0 {
        0
    } else {
        spec_sum(samples.drop_last()) + samples.last() as nat
    }
}

/// The sum of the distances of `samples` from `center`.
pub open spec fn spec_deviation_sum(samples: Seq<u64>, center: u64) -> nat
    decreases samples.len(),
{
    if samples.len() == 0 {
        0
    } else {
        spec_deviation_sum(samples.drop_last(), center) + (if samples.last() >= center {
            samples.last() - center
        } else {
            center - samples.last()
        }) as nat
    }
}

/// The mean of `samples`, rounded down; zero where there is none.
pub open spec fn spec_mean(samples: Seq<u64>) -> nat {
    if samples.len() == 0 {
        0
    } else {
        spec_sum(samples) / samples.len()
    }
}

/// The mean distance of `samples` from their mean, rounded down.
pub open spec fn spec_mean_deviation(samples: Seq<u64>) -> nat {
    if samples.len() == 0 {
        0
    } else {
        spec_deviation_sum(samples, spec_mean(samples) as u64) / samples.len()
    }
}

/// `samples` with `sample` added, cut down from the old end to the `size`
/// newest.
pub open spec fn spec_window(samples: Seq<u64>, sample: u64, size: u8) -> Seq<u64> {
    let all = samples.push(sample);
    if all.len() > size {
        all.skip(all.len() - size)
    } else {
        all
    }
}

/// What a `PingManager` holds, as mathematics.
pub struct PingManagerView {
    /// Rings when the next ping is due.
    pub ping_timer: Timer,
    /// How many samples the average is taken over.
    pub sample_size: u8,
    /// The timestamp of the ping that awaits its answer.
    pub in_flight: Option<u64>,
    /// The timestamp of the peer's ping that we owe an answer to.
    pub pending_pong: Option<u64>,
    /// The round trip times measured, oldest first.
    pub samples: Seq<u64>,
}

impl PingManagerView {
    /// The window holds no more samples than it is set up for.
    pub open spec fn wf(self) -> bool {
        self.samples.len() <= self.sample_size
    }

    /// Whether a ping is due at the time `now`: none awaits its answer, or
    /// the interval since the last one has passed.
    pub open spec fn should_write(self, now: u64) -> bool {
        self.in_flight.is_none() || self.ping_timer.spec_ringing(now)
    }

    /// Whether the answer we owe goes into `writer`.
    pub open spec fn writes_pong(self, writer: PacketWriterView) -> bool {
        self.pending_pong.is_some() && writer.ping_fits()
    }

    /// The writer after the answer we owe went in, if it does.
    pub open spec fn writer_after_pong(self, writer: PacketWriterView) -> PacketWriterView {
        if self.writes_pong(writer) {
            writer.with_ping(PONG, self.pending_pong.unwrap())
        } else {
            writer
        }
    }

    /// Whether a new ping goes into `writer` at the time `now`.
    pub open spec fn writes_ping(self, writer: PacketWriterView, now: u64) -> bool {
        self.should_write(now) && self.writer_after_pong(writer).ping_fits()
    }

    /// The writer after the ping manager wrote what it has to say.
    pub open spec fn writer_after(self, writer: PacketWriterView, now: u64) -> PacketWriterView {
        if self.writes_ping(writer, now) {
            self.writer_after_pong(writer).with_ping(PING, now)
        } else {
            self.writer_after_pong(writer)
        }
    }

    /// The ping manager after it wrote what it has to say.
    pub open spec fn after_write(self, writer: PacketWriterView, now: u64) -> Self {
        PingManagerView {
            ping_timer: if self.writes_ping(writer, now) {
                Timer {
                    interval: self.ping_timer.interval,
                    next_fire: spec_fire_time(now, self.ping_timer.interval),
                }
            } else {
                self.ping_timer
            },
            sample_size: self.sample_size,
            in_flight: if self.writes_ping(writer, now) {
                Some(now)
            } else {
                self.in_flight
            },
            pending_pong: if self.writes_pong(writer) {
                None
            } else {
                self.pending_pong
            },
            samples: self.samples,
        }
    }

    /// The ping manager after a block of kind `kind` with `timestamp` came
    /// in at the time `now`. A ping is to be answered. A pong ends the wait
    /// for an answer and gives a sample of the round trip time: the time from
    /// the timestamp that it returns until now.
    pub open spec fn after_block(self, kind: u8, timestamp: u64, now: u64) -> Self {
        if kind == PING {
            PingManagerView { pending_pong: Some(timestamp), ..self }
        } else if kind == PONG {
            PingManagerView {
                in_flight: None,
                samples: spec_window(
                    self.samples,
                    if now >= timestamp {
                        (now - timestamp) as u64
                    } else {
                        0
                    },
                    self.sample_size,
                ),
                ..self
            }
        } else {
            self
        }
    }
}

/// The ping block at `position` of `bytes`: its kind and timestamp. Nothing
/// where the bytes run out or the kind is none.
pub open spec fn spec_parse_ping(bytes: Seq<u8>, position: int) -> Option<(u8, u64)> {
    match (spec_read_u8(bytes, position), spec_read_u64(bytes, position + 1)) {
        (Some(kind), Some(timestamp)) => if kind <= 1 {
            Some((kind, timestamp))
        } else {
            None
        },
        _ => None,
    }
}

/// Sends pings, answers the peer's, and keeps the last round trip times.
pub struct PingManager {
    ping_timer: Timer,
    sample_size: u8,
    in_flight: Option<u64>,
    pending_pong: Option<u64>,
    samples: Vec<u64>,
}

impl View for PingManager {
    type V = PingManagerView;

    closed spec fn view(&self) -> PingManagerView {
        PingManagerView {
            ping_timer: self.ping_timer,
            sample_size: self.sample_size,
            in_flight: self.in_flight,
            pending_pong: self.pending_pong,
            samples: self.samples@,
        }
    }
}

impl PingManager {
    /// A ping manager that has measured nothing. Its first ping is due at
    /// once.
    pub fn new(ping_interval: u64, ping_sample_size: u8, now: u64) -> (manager: Self)
        ensures
            manager@.wf(),
            manager@ == (PingManagerView {
                ping_timer: Timer {
                    interval: ping_interval,
                    next_fire: spec_fire_time(now, ping_interval),
                },
                sample_size: ping_sample_size,
                in_flight: None,
                pending_pong: None,
                samples: Seq::empty(),
            }),
    {
        PingManager {
            ping_timer: Timer::new(ping_interval, now),
            sample_size: ping_sample_size,
            in_flight: None,
            pending_pong: None,
            samples: Vec::new(),
        }
    }

    /// Whether a ping is due at the time `now`.
    pub fn should_write(&self, now: u64) -> (due: bool)
        ensures
            due == self@.should_write(now),
    {
        self.in_flight.is_none() || self.ping_timer.ringing(now)
    }

    /// Writes into `writer` the answer to the peer's last ping, if one is
    /// owed, and a new ping, if one is due; each only if it fits.
    pub fn write_data(&mut self, writer: &mut PacketWriter, now: u64)
        requires
            old(writer)@.wf(),
        ensures
            final(writer)@ == old(self)@.writer_after(old(writer)@, now),
            final(self)@ == old(self)@.after_write(old(writer)@, now),
            final(writer)@.wf(),
            old(self)@.wf() ==> final(self)@.wf(),
    {
        match self.pending_pong {
            Some(timestamp) => {
                if writer.write_ping(PONG, timestamp) {
                    self.pending_pong = None;
                }
            },
            None => {},
        }
        if self.should_write(now) {
            if writer.write_ping(PING, now) {
                self.in_flight = Some(now);
                self.ping_timer.reset(now);
            }
        }
    }

    /// Reads the ping block at the reader's cursor. A block that runs past
    /// the end of the packet, or of no known kind, changes nothing and
    /// leaves the reader at the end of the packet.
    pub fn read_data(&mut self, reader: &mut PacketReader, now: u64)
        ensures
            final(reader).bytes() == old(reader).bytes(),
            match spec_parse_ping(old(reader).bytes(), old(reader).position()) {
                Some((kind, timestamp)) => {
                    &&& final(reader).position() == old(reader).position() + 9
                    &&& final(self)@ == old(self)@.after_block(kind, timestamp, now)
                },
                None => {
                    &&& final(reader).position() == old(reader).bytes().len()
                    &&& final(self)@ == old(self)@
                },
            },
            old(self)@.wf() ==> final(self)@.wf(),
    {
        let kind = reader.read_u8();
        let timestamp = if kind.is_some() {
            reader.read_u64()
        } else {
            None
        };
        match (kind, timestamp) {
            (Some(kind), Some(timestamp)) => {
                if kind == PING {
                    self.pending_pong = Some(timestamp);
                } else if kind == PONG {
                    self.in_flight = None;
                    let sample = if now >= timestamp {
                        now - timestamp
                    } else {
                        0
                    };
                    self.record(sample);
                } else {
                    reader.skip_to_end();
                }
            },
            _ => {
                reader.skip_to_end();
            },
        }
    }

    /// Adds a sample and lets the oldest go where the window is full.
    fn record(&mut self, sample: u64)
        ensures
            final(self)@ == (PingManagerView {
                samples: spec_window(old(self)@.samples, sample, old(self)@.sample_size),
                ..old(self)@
            }),
            old(self)@.wf() ==> final(self)@.wf(),
    {
        let ghost all = self.samples@.push(sample);
        self.samples.push(sample);
        let size = self.sample_size as usize;
        if self.samples.len() > size {
            let surplus = self.samples.len() - size;
            let mut kept: Vec<u64> = Vec::new();
            let mut i: usize = surplus;
            while i < self.samples.len()
                invariant
                    surplus <= i <= self.samples.len(),
                    self.samples@ == all,
                    kept@ == all.subrange(surplus as int, i as int),
                decreases self.samples.len() - i,
            {
                kept.push(self.samples[i]);
                assert(all.subrange(surplus as int, i + 1) =~= all.subrange(
                    surplus as int,
                    i as int,
                ).push(all[i as int]));
                i += 1;
            }
            assert(kept@ =~= all.skip(all.len() - size));
            self.samples = kept;
        }
    }

    /// The mean of the round trip times in the window, in milliseconds.
    pub fn get_rtt(&self) -> (rtt: u64)
        ensures
            rtt == spec_mean(self@.samples),
    {
        mean(&self.samples)
    }

    /// The mean distance of the round trip times in the window from their
    /// mean, in milliseconds.
    pub fn get_jitter(&self) -> (jitter: u64)
        ensures
            jitter == spec_mean_deviation(self@.samples),
    {
        let center = mean(&self.samples);
        if self.samples.len() == 0 {
            return 0;
        }
        let mut total: u128 = 0;
        let mut i: usize = 0;
        while i < self.samples.len()
            invariant
                i <= self.samples.len(),
                total == spec_deviation_sum(self.samples@.subrange(0, i as int), center),
                total <= i * 0xffff_ffff_ffff_ffff,
            decreases self.samples.len() - i,
        {
            let sample = self.samples[i];
            assert(self.samples@.subrange(0, i + 1).drop_last() =~= self.samples@.subrange(
                0,
                i as int,
            ));
            let distance = if sample >= center {
                sample - center
            } else {
                center - sample
            };
            assert(i * 0xffff_ffff_ffff_ffff + 0xffff_ffff_ffff_ffff <= usize::MAX
                * 0xffff_ffff_ffff_ffff + 0xffff_ffff_ffff_ffff) by (nonlinear_arith)
                requires
                    i <= usize::MAX,
            ;
            total = total + distance as u128;
            i += 1;
        }
        assert(self.samples@.subrange(0, i as int) =~= self.samples@);
        let count = self.samples.len() as u128;
        let jitter = total / count;
        assert(jitter <= 0xffff_ffff_ffff_ffff) by (nonlinear_arith)
            requires
                jitter == total / count,
                total <= count * 0xffff_ffff_ffff_ffff,
                count > 0,
        ;
        jitter as u64
    }
}

/// The mean of `samples`, rounded down; zero where there is none.
fn mean(samples: &Vec<u64>) -> (center: u64)
    ensures
        center == spec_mean(samples@),
{
    if samples.len() == 0 {
        return 0;
    }
    let mut total: u128 = 0;
    let mut i: usize = 0;
    while i < samples.len()
        invariant
            i <= samples.len(),
            total == spec_sum(samples@.subrange(0, i as int)),
            total <= i * 0xffff_ffff_ffff_ffff,
        decreases samples.len() - i,
    {
        assert(samples@.subrange(0, i + 1).drop_last() =~= samples@.subrange(0, i as int));
        assert(i * 0xffff_ffff_ffff_ffff + 0xffff_ffff_ffff_ffff <= usize::MAX
            * 0xffff_ffff_ffff_ffff + 0xffff_ffff_ffff_ffff) by (nonlinear_arith)
            requires
                i <= usize::MAX,
        ;
        total = total + samples[i] as u128;
        i += 1;
    }
    assert(samples@.subrange(0, i as int) =~= samples@);
    let count = samples.len() as u128;
    let center = total / count;
    assert(center <= 0xffff_ffff_ffff_ffff) by (nonlinear_arith)
        requires
            center == total / count,
            total <= count * 0xffff_ffff_ffff_ffff,
            count > 0,
    ;
    center as u64
}

} // verus!
