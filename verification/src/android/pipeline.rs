//! The codec pipeline: what is encoded, and what is played.
use vstd::prelude::*;
use vstd::string::StringExecFns;

use crate::android::audio_android::FRAME_SAMPLES;
use crate::android::engine::plus;
use crate::audio_ring::min;
use crate::call::JitterPlan;
use crate::proto::{MediaHeader, QualityProfile};

verus! {

broadcast use vstd::string::group_string_axioms;

/// The longest encoded frame.
pub const MAX_ENCODED_BYTES: usize = 1275;

/// Depths of the jitter buffer, in packets: target, largest, smallest.
pub const JITTER_TARGET: usize = 10;

pub const JITTER_MAX: usize = 250;

pub const JITTER_MIN: usize = 3;

/// What the echo canceller is made for: samples per second, and the
/// milliseconds of echo that it follows.
pub const ECHO_SAMPLE_RATE: u32 = 48_000;

pub const ECHO_TAIL_MS: u32 = 100;

/// What the parts of a pipeline are made with.
#[derive(Clone, Copy, Debug, PartialEq, Eq, Structural)]
pub struct PipelineParts {
    /// The profile of encoder and decoder.
    pub profile: QualityProfile,
    /// Frames in a block, for both FEC sides.
    pub fec_frames_per_block: usize,
    pub jitter: JitterPlan,
    pub echo_sample_rate: u32,
    pub echo_tail_ms: u32,
}

/// The parts of a pipeline for `profile`.
pub open spec fn parts_for(profile: QualityProfile) -> PipelineParts {
    PipelineParts {
        profile,
        fec_frames_per_block: profile.frames_per_block as usize,
        jitter: JitterPlan::Fixed { target: 10, max: 250, min: 3 },
        echo_sample_rate: 48_000,
        echo_tail_ms: 100,
    }
}

/// Counters of the pipeline.
#[derive(Clone, Copy, Debug, PartialEq, Eq, Structural)]
pub struct PipelineStats {
    pub frames_encoded: u64,
    pub frames_decoded: u64,
    pub underruns: u64,
    pub jitter_depth: usize,
    pub quality_tier: u8,
}

/// What the jitter buffer hands out.
#[derive(Clone, Copy, Debug, PartialEq, Eq, Structural)]
pub enum JitterOutput {
    Packet,
    Missing,
    NotReady,
}

pub struct Pipeline {
    pub parts: PipelineParts,
    /// The last frame that was played, for the echo canceller.
    pub last_decoded_farend: Option<Vec<i16>>,
    pub frames_encoded: u64,
    pub frames_decoded: u64,
    pub underruns: u64,
}

/// The samples of an optional frame.
pub open spec fn frame_view(f: Option<Vec<i16>>) -> Option<Seq<i16>> {
    match f {
        Some(v) => Some(v@),
        None => None,
    }
}

/// What is played, of what decoder and loss concealment gave.
pub open spec fn played(
    output: JitterOutput,
    decoded: Option<Seq<i16>>,
    concealed: Option<Seq<i16>>,
) -> Option<Seq<i16>> {
    match output {
        JitterOutput::Packet => if decoded is Some {
            decoded
        } else {
            concealed
        },
        JitterOutput::Missing => concealed,
        JitterOutput::NotReady => None,
    }
}

impl Pipeline {
    /// A pipeline for `profile`, given whether its encoder and its decoder
    /// could be made: it says of the first that could not why.
    pub fn new(
        profile: QualityProfile,
        encoder: Result<(), String>,
        decoder: Result<(), String>,
    ) -> (r: Result<Self, String>)
        ensures
            match (encoder, decoder) {
                (Err(e), _) => r matches Err(m) && m@ == "encoder init: "@ + e@,
                (Ok(_), Err(e)) => r matches Err(m) && m@ == "decoder init: "@ + e@,
                (Ok(_), Ok(_)) => r == Ok::<Self, String>(
                    Pipeline {
                        parts: parts_for(profile),
                        last_decoded_farend: None,
                        frames_encoded: 0,
                        frames_decoded: 0,
                        underruns: 0,
                    },
                ),
            },
    {
        if let Err(e) = encoder {
            let mut m = String::from_str("encoder init: ");
            m.append(e.as_str());
            return Err(m);
        }
        if let Err(e) = decoder {
            let mut m = String::from_str("decoder init: ");
            m.append(e.as_str());
            return Err(m);
        }
        Ok(
            Pipeline {
                parts: PipelineParts {
                    profile,
                    fec_frames_per_block: profile.frames_per_block as usize,
                    jitter: JitterPlan::Fixed {
                        target: JITTER_TARGET,
                        max: JITTER_MAX,
                        min: JITTER_MIN,
                    },
                    echo_sample_rate: ECHO_SAMPLE_RATE,
                    echo_tail_ms: ECHO_TAIL_MS,
                },
                last_decoded_farend: None,
                frames_encoded: 0,
                frames_decoded: 0,
                underruns: 0,
            },
        )
    }

    /// The samples to encode: a frame of silence while muted, and otherwise
    /// no more of `pcm` than a frame.
    pub fn encoder_input(&self, pcm: &[i16], muted: bool) -> (r: Vec<i16>)
        ensures
            r@ == if muted {
                Seq::new(960, |i: int| 0i16)
            } else {
                pcm@.take(min(pcm@.len() as int, 960))
            },
    {
        if muted {
            let r: Vec<i16> = vec![0i16; FRAME_SAMPLES];
            assert(r@ =~= Seq::new(960, |i: int| 0i16));
            return r;
        }
        let len: usize = if pcm.len() < FRAME_SAMPLES {
            pcm.len()
        } else {
            FRAME_SAMPLES
        };
        let mut r: Vec<i16> = Vec::new();
        let mut i: usize = 0;
        while i < len
            invariant
                i <= len <= pcm@.len(),
                r@ == pcm@.take(i as int),
            decreases len - i,
        {
            r.push(pcm[i]);
            i += 1;
            assert(r@ =~= pcm@.take(i as int));
        }
        r
    }

    /// What the echo canceller is given before a frame is encoded.
    pub fn farend(&self, muted: bool) -> (r: Option<&Vec<i16>>)
        ensures
            match r {
                Some(f) => !muted && self.last_decoded_farend == Some(*f),
                None => muted || self.last_decoded_farend is None,
            },
    {
        if muted {
            return None;
        }
        match &self.last_decoded_farend {
            Some(f) => Some(f),
            None => None,
        }
    }

    /// Takes in what the encoder made of a frame; the caller gives it to the
    /// FEC encoder too.
    pub fn encode_frame(&mut self, encoded: Option<Vec<u8>>) -> (r: Option<Vec<u8>>)
        ensures
            r == encoded,
            *final(self) == if encoded is Some {
                Pipeline { frames_encoded: plus(old(self).frames_encoded, 1), ..*old(self) }
            } else {
                *old(self)
            },
    {
        if encoded.is_some() {
            self.frames_encoded = self.frames_encoded.wrapping_add(1);
        }
        encoded
    }

    /// Whether a received packet is given to the FEC decoder; it is queued
    /// for playout in any case.
    pub fn feed_packet(&self, header: &MediaHeader) -> (r: bool)
        ensures
            r == (header.fec_block != 0 || header.fec_symbol != 0),
            header.fec_block > 0 ==> r,
            header.fec_symbol > 0 ==> r,
            !r ==> header.fec_block + header.fec_symbol == 0,
    {
        header.fec_block != 0 || header.fec_symbol != 0
    }

    /// Whether loss concealment is asked, given what the decoder made of the
    /// packet.
    pub fn generate_plc(output: JitterOutput, decoded: bool) -> (r: bool)
        ensures
            r == (output == JitterOutput::Missing || output == JitterOutput::Packet && !decoded),
            output is Missing ==> r,
            output is Packet ==> r == !decoded,
            output is NotReady ==> !r,
    {
        match output {
            JitterOutput::Packet => !decoded,
            JitterOutput::Missing => true,
            JitterOutput::NotReady => false,
        }
    }

    /// What is played, of what decoder and loss concealment gave. It is kept
    /// for the echo canceller.
    pub fn decode_frame(
        &mut self,
        output: JitterOutput,
        decoded: Option<Vec<i16>>,
        concealed: Option<Vec<i16>>,
    ) -> (r: Option<Vec<i16>>)
        ensures
            frame_view(r) == played(output, frame_view(decoded), frame_view(concealed)),
            final(self).parts == old(self).parts,
            final(self).frames_encoded == old(self).frames_encoded,
            final(self).underruns == if output == JitterOutput::NotReady {
                plus(old(self).underruns, 1)
            } else {
                old(self).underruns
            },
            r is Some ==> {
                &&& final(self).frames_decoded == plus(old(self).frames_decoded, 1)
                &&& frame_view(final(self).last_decoded_farend) == frame_view(r)
            },
            r is None ==> {
                &&& final(self).frames_decoded == old(self).frames_decoded
                &&& final(self).last_decoded_farend == old(self).last_decoded_farend
            },
    {
        let result = match output {
            JitterOutput::Packet => match decoded {
                Some(pcm) => Some(pcm),
                None => concealed,
            },
            JitterOutput::Missing => concealed,
            JitterOutput::NotReady => {
                self.underruns = self.underruns.wrapping_add(1);
                None
            },
        };
        if let Some(pcm) = &result {
            self.frames_decoded = self.frames_decoded.wrapping_add(1);
            let copy = pcm.clone();
            assert(copy@ =~= pcm@);
            self.last_decoded_farend = Some(copy);
        }
        result
    }

    pub fn stats(&self, jitter_depth: usize, quality_tier: u8) -> (r: PipelineStats)
        ensures
            r == (PipelineStats {
                frames_encoded: self.frames_encoded,
                frames_decoded: self.frames_decoded,
                underruns: self.underruns,
                jitter_depth,
                quality_tier,
            }),
    {
        PipelineStats {
            frames_encoded: self.frames_encoded,
            frames_decoded: self.frames_decoded,
            underruns: self.underruns,
            jitter_depth,
            quality_tier,
        }
    }
}

/// Once the buffer hands out a place in the stream, something is played
/// wherever decoder or concealment gave something for it: a packet that could
/// be decoded as it was decoded, and anything else as it was concealed.
pub proof fn lemma_something_played(
    output: JitterOutput,
    decoded: Option<Seq<i16>>,
    concealed: Option<Seq<i16>>,
)
    ensures
        output is Packet && decoded is Some ==> played(output, decoded, concealed) == decoded,
        output !is NotReady && concealed is Some ==> played(output, decoded, concealed) is Some,
        output is Missing ==> played(output, decoded, concealed) == concealed,
        played(JitterOutput::NotReady, decoded, concealed) is None,
{
}

} // verus!
