use vstd::prelude::*;
use crate::dsp::signature_format::FrequencyBand;

verus! {

/// Samples in one FFT window.
pub const WINDOW_SIZE: usize = 2048;

/// Samples by which consecutive windows advance.
pub const HOP_SIZE: usize = 128;

/// The last 2048 samples the signature generator has seen, which the next
/// FFT window is taken from.
pub struct SampleRing {
    samples: [i16; 2048],
    index: usize,
}

impl View for SampleRing {
    type V = Seq<i16>;

    /// The window's samples, oldest first.
    closed spec fn view(&self) -> Seq<i16> {
        Seq::new(2048, |i: int| self.samples@[(i + self.index) % 2048])
    }
}

impl SampleRing {
    /// The write position is a whole number of hops into the storage.
    pub closed spec fn well_formed(&self) -> bool {
        &&& self.index < 2048
        &&& self.index % 128 == 0
    }

    /// A window of silence.
    pub fn new() -> (r: Self)
        ensures
            r.well_formed(),
            r@ == Seq::new(2048, |i: int| 0i16),
    {
        let r = SampleRing { samples: [0i16; 2048], index: 0 };
        assert(r@ =~= Seq::new(2048, |i: int| 0i16));
        r
    }

    /// Slides the window by one hop: the 128 oldest samples leave, `chunk`
    /// arrives as the newest.
    pub fn push_chunk(&mut self, chunk: &[i16; 128])
        requires
            old(self).well_formed(),
        ensures
            final(self).well_formed(),
            final(self)@ == (old(self)@ + chunk@).skip(128),
    {
        let ghost before = self@;
        let ghost old_samples = self.samples@;
        let start = self.index;
        let mut k: usize = 0;
        while k < 128
            invariant
                k <= 128,
                start < 2048,
                start % 128 == 0,
                self.index == start,
                self.samples@.len() == 2048,
                forall|j: int|
                    0 <= j < 2048 ==> #[trigger] self.samples@[j] == if start <= j < start + k {
                        chunk@[j - start]
                    } else {
                        old_samples[j]
                    },
            decreases 128 - k,
        {
            self.samples.set(start + k, chunk[k]);
            k = k + 1;
        }
        let next = start + 128;
        self.index = next & 2047;
        assert(next & 2047 == next % 2048) by (bit_vector);
        assert forall|i: int| 0 <= i < 2048 implies #[trigger] self@[i] == (before + chunk@).skip(
            128,
        )[i] by {
            let j = (i + self.index) % 2048;
            if i < 2048 - 128 {
                assert(j == (i + 128 + start) % 2048);
                assert(before[i + 128] == old_samples[(i + 128 + start) % 2048]);
            } else {
                assert(j == start + (i - (2048 - 128)));
            }
        }
        assert(self@ =~= (before + chunk@).skip(128));
    }

    /// The window's samples, oldest first.
    pub fn ordered(&self) -> (out: Vec<i16>)
        requires
            self.well_formed(),
        ensures
            out@ == self@,
    {
        let mut out: Vec<i16> = Vec::with_capacity(2048);
        let mut i: usize = 0;
        while i < 2048
            invariant
                i <= 2048,
                self.well_formed(),
                out@ == self@.take(i as int),
            decreases 2048 - i,
        {
            let sum = i + self.index;
            let pos = sum & 2047;
            assert(sum & 2047 == sum % 2048) by (bit_vector);
            out.push(self.samples[pos]);
            assert(out@ =~= self@.take(i + 1));
            i = i + 1;
        }
        assert(self@.take(2048) =~= self@);
        out
    }
}

/// Law of the sample window: after hops of 128 samples each, starting from
/// silence, the window holds the last 2048 samples of the silence followed
/// by everything pushed.
pub proof fn lemma_window_is_recent_history(history: Seq<i16>, chunk: Seq<i16>, window: Seq<i16>)
    requires
        window.len() == 2048,
        chunk.len() == 128,
        history.len() >= 2048,
        window == history.subrange(history.len() - 2048, history.len() as int),
    ensures
        (window + chunk).skip(128) == (history + chunk).subrange(
            history.len() + 128 - 2048,
            history.len() + 128 as int,
        ),
{
    assert((window + chunk).skip(128) =~= (history + chunk).subrange(
        history.len() + 128 - 2048,
        history.len() + 128 as int,
    ));
}

/// Frequency band of a peak at `hz` Hz: 250-519, 520-1449, 1450-3499 and
/// 3500-5500; peaks elsewhere belong to no band.
pub open spec fn band_of_frequency(hz: int) -> Option<FrequencyBand> {
    if 250 <= hz <= 519 {
        Some(FrequencyBand::_250_520)
    } else if 520 <= hz <= 1449 {
        Some(FrequencyBand::_520_1450)
    } else if 1450 <= hz <= 3499 {
        Some(FrequencyBand::_1450_3500)
    } else if 3500 <= hz <= 5500 {
        Some(FrequencyBand::_3500_5500)
    } else {
        None
    }
}

/// Whole hertz of a corrected peak bin: a bin is 1/64 of an FFT bin of
/// 16000 / 2 / 1024 Hz, so 125/1024 Hz, rounded down.
pub open spec fn corrected_bin_hz(bin: u16) -> int {
    bin * 125 / 1024
}

/// The band a peak at corrected bin `bin` belongs to, if any.
pub fn band_of_corrected_bin(bin: u16) -> (band: Option<FrequencyBand>)
    ensures
        band == band_of_frequency(corrected_bin_hz(bin)),
{
    let hz: u32 = (bin as u32) * 125 / 1024;
    if 250 <= hz && hz <= 519 {
        Some(FrequencyBand::_250_520)
    } else if 520 <= hz && hz <= 1449 {
        Some(FrequencyBand::_520_1450)
    } else if 1450 <= hz && hz <= 3499 {
        Some(FrequencyBand::_1450_3500)
    } else if 3500 <= hz && hz <= 5500 {
        Some(FrequencyBand::_3500_5500)
    } else {
        None
    }
}

/// Number of FFT passes after which peak recognition starts.
pub const PEAK_DELAY_PASSES: u32 = 46;

/// Pass number of the peaks recognized once `passes_done` spread FFTs are
/// done: the pass 46 before, if there is one.
pub fn recognition_pass(passes_done: u32) -> (pass: Option<u32>)
    ensures
        passes_done >= 46 ==> pass == Some((passes_done - 46) as u32),
        passes_done < 46 ==> pass is None,
{
    if passes_done >= PEAK_DELAY_PASSES {
        Some(passes_done - PEAK_DELAY_PASSES)
    } else {
        None
    }
}

} // verus!
