//! Records of the audio server's sinks and sink inputs, as plain values.
use vstd::prelude::*;

verus! {

/// State of a sink device as reported by the server.
#[derive(Clone, Copy, Debug, PartialEq, Eq, Structural)]
pub enum SinkState {
    /// The server does not report sink states.
    Invalid,
    /// Playing, with at least one uncorked input.
    Running,
    /// Playing, with no uncorked input.
    Idle,
    /// Suspended.
    Suspended,
}

/// Sum of the channel volumes, in raw volume units.
pub open spec fn volume_sum(v: Seq<u32>) -> int
    decreases v.len(),
{
    if v.len() == 0 {
        0
    } else {
        volume_sum(v.drop_last()) + v.last() as int
    }
}

/// Average of the channel volumes, rounded down; a volume without channels is muted (0).
pub open spec fn volume_average(v: Seq<u32>) -> int {
    if v.len() == 0 {
        0
    } else {
        volume_sum(v) / (v.len() as int)
    }
}

proof fn lemma_volume_sum_bounds(v: Seq<u32>)
    ensures
        0 <= volume_sum(v) <= v.len() * (u32::MAX as int),
    decreases v.len(),
{
    if v.len() > 0 {
        lemma_volume_sum_bounds(v.drop_last());
    }
}

/// Averages the per-channel volumes in `v`, rounding down.
pub fn average_volume(v: &Vec<u32>) -> (r: u32)
    ensures
        r as int == volume_average(v@),
{
    if v.len() == 0 {
        return 0;
    }
    let mut sum: u128 = 0;
    let mut i: usize = 0;
    while i < v.len()
        invariant
            i <= v.len(),
            sum as int == volume_sum(v@.subrange(0, i as int)),
        decreases v.len() - i,
    {
        proof {
            lemma_volume_sum_bounds(v@.subrange(0, i as int));
            assert(v@.subrange(0, i + 1).drop_last() == v@.subrange(0, i as int));
        }
        sum = sum + v[i] as u128;
        i = i + 1;
    }
    proof {
        assert(v@.subrange(0, v.len() as int) == v@);
        lemma_volume_sum_bounds(v@);
        let n = v.len() as int;
        let s = sum as int;
        assert(s / n <= u32::MAX as int) by (nonlinear_arith)
            requires
                0 <= s <= n * (u32::MAX as int),
                n > 0,
        ;
    }
    (sum / (v.len() as u128)) as u32
}

/// One audio output device, as the server described it at one poll.
#[derive(Clone, Debug, PartialEq, Eq)]
pub struct SinkInformation {
    /// Name of the sink.
    pub name: Option<String>,
    /// Index of the sink; unique among the sinks of one connection.
    pub index: u32,
    /// Human-readable description.
    pub description: Option<String>,
    /// Index of the owning module, if any.
    pub owner_module: Option<u32>,
    /// Per-channel volume, in raw volume units.
    pub volume: Vec<u32>,
    /// Channel positions, one code per channel, describing the layout of `volume`.
    pub channel_map: Vec<i32>,
    /// Mute switch.
    pub mute: bool,
    /// Index of the monitor source of this sink.
    pub monitor_source: u32,
    /// Name of the monitor source.
    pub monitor_source_name: Option<String>,
    /// Length of queued audio in the output buffer, in microseconds.
    pub latency: u64,
    /// Latency the device has been configured to, in microseconds.
    pub configured_latency: u64,
    /// Driver name.
    pub driver: Option<String>,
    /// Sink flags, as the server's bit set.
    pub flags: u32,
    /// Unamplified volume of the device, in raw volume units.
    pub base_volume: u32,
    /// Device state.
    pub state: SinkState,
    /// Number of volume steps for sinks without arbitrary volumes.
    pub n_volume_steps: u32,
    /// Card index, if any.
    pub card: Option<u32>,
}

/// One stream playing into a sink, as the server described it at one poll.
#[derive(Clone, Debug, PartialEq, Eq)]
pub struct SinkInputInformation {
    /// Index of the sink input; unique per stream.
    pub index: u32,
    /// Name of the sink input.
    pub name: Option<String>,
    /// Index of the owning module, if any.
    pub owner_module: Option<u32>,
    /// Index of the owning client, if any.
    pub client: Option<u32>,
    /// Index of the sink this stream plays into. It may name a sink that is gone.
    pub sink: u32,
    /// Per-channel volume, in raw volume units.
    pub volume: Vec<u32>,
    /// Channel positions, one code per channel, describing the layout of `volume`.
    pub channel_map: Vec<i32>,
    /// Latency due to buffering in the stream, in microseconds.
    pub buffer_usec: u64,
    /// Latency of the sink device, in microseconds.
    pub sink_usec: u64,
    /// Resampling method.
    pub resample_method: Option<String>,
    /// Driver name.
    pub driver: Option<String>,
    /// Stream muted.
    pub mute: bool,
    /// Stream corked.
    pub corked: bool,
    /// Whether `volume` is meaningful.
    pub has_volume: bool,
    /// Whether clients may set the volume.
    pub volume_writable: bool,
}

impl SinkInformation {
    /// A sink with the given index, name and volume; the other fields are empty or zero.
    pub fn new(index: u32, name: Option<String>, volume: Vec<u32>) -> (r: Self)
        ensures
            r.index == index,
            r.name == name,
            r.volume == volume,
            r.mute == false,
            r.state == SinkState::Invalid,
    {
        SinkInformation {
            name,
            index,
            description: None,
            owner_module: None,
            volume,
            channel_map: Vec::new(),
            mute: false,
            monitor_source: 0,
            monitor_source_name: None,
            latency: 0,
            configured_latency: 0,
            driver: None,
            flags: 0,
            base_volume: 0,
            state: SinkState::Invalid,
            n_volume_steps: 0,
            card: None,
        }
    }

    /// Average volume over the channels, in raw volume units.
    pub fn average_volume(&self) -> (r: u32)
        ensures
            r as int == volume_average(self.volume@),
    {
        average_volume(&self.volume)
    }
}

impl SinkInputInformation {
    /// A stream with the given index, owning sink and volume; the other fields are empty or zero.
    pub fn new(index: u32, sink: u32, name: Option<String>, volume: Vec<u32>) -> (r: Self)
        ensures
            r.index == index,
            r.sink == sink,
            r.name == name,
            r.volume == volume,
            r.mute == false,
            r.corked == false,
    {
        SinkInputInformation {
            index,
            name,
            owner_module: None,
            client: None,
            sink,
            volume,
            channel_map: Vec::new(),
            buffer_usec: 0,
            sink_usec: 0,
            resample_method: None,
            driver: None,
            mute: false,
            corked: false,
            has_volume: true,
            volume_writable: true,
        }
    }

    /// Average volume over the channels, in raw volume units.
    pub fn average_volume(&self) -> (r: u32)
        ensures
            r as int == volume_average(self.volume@),
    {
        average_volume(&self.volume)
    }
}

} // verus!
