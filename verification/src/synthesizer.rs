//! Synthesis-side data: speakers, sample rates, audio formats and the
//! synthesis request.
//!
//! A synthesis call sends one request naming the voice, the sampling rate,
//! the audio format and the text to speak. Parsing the caller's selectors and
//! assembling that request is plain computation and is verified here; the
//! gRPC call that carries the request is the transport's concern.

use vstd::prelude::*;

use crate::error::SpeechCenterError;
use crate::text::eq_lowered;
use crate::text::lemma_matches_lowered_excludes;
use crate::text::matches_lowered;
use vstd::string::StringExecFns;

verus! {

/// Voice selector offered to callers: a speaker name in a language.
#[derive(Clone, Copy, Debug, PartialEq, Eq, Structural)]
pub enum Speaker {
    EnUsTommy,
    EnUsAnnie,
    EsEsAurora,
    EsEsDavid,
    PtBrLuma,
    CaCaDavid,
}

/// Voice named on the wire; one per speaker.
#[derive(Clone, Copy, Debug, PartialEq, Eq, Structural)]
pub enum Voice {
    EnUsTommy,
    EnUsAnnie,
    EsEsAurora,
    EsEsDavid,
    PtBrLuma,
    CaCaDavid,
}

/// The wire voice that a speaker selects.
pub open spec fn voice_of(s: Speaker) -> Voice {
    match s {
        Speaker::EnUsTommy => Voice::EnUsTommy,
        Speaker::EnUsAnnie => Voice::EnUsAnnie,
        Speaker::EsEsAurora => Voice::EsEsAurora,
        Speaker::EsEsDavid => Voice::EsEsDavid,
        Speaker::PtBrLuma => Voice::PtBrLuma,
        Speaker::CaCaDavid => Voice::CaCaDavid,
    }
}

/// A speaker name and a language tag both match their keywords, ignoring
/// ASCII letter case.
pub open spec fn speaker_selected(
    name: Seq<char>,
    language: Seq<char>,
    name_kw: Seq<char>,
    language_kw: Seq<char>,
) -> bool {
    matches_lowered(name, name_kw) && matches_lowered(language, language_kw)
}

impl Speaker {
    /// Parses a speaker from a name and a language tag, accepting any letter
    /// case. Exactly the six known name/language combinations are accepted;
    /// anything else is an error carrying the offending pair.
    pub fn from_name(name: &str, language: &str) -> (r: Result<Speaker, SpeechCenterError>)
        ensures
            r == Ok::<Speaker, SpeechCenterError>(Speaker::EnUsTommy) <==> speaker_selected(
                name@,
                language@,
                "tommy"@,
                "en-us"@,
            ),
            r == Ok::<Speaker, SpeechCenterError>(Speaker::EnUsAnnie) <==> speaker_selected(
                name@,
                language@,
                "annie"@,
                "en-us"@,
            ),
            r == Ok::<Speaker, SpeechCenterError>(Speaker::EsEsAurora) <==> speaker_selected(
                name@,
                language@,
                "aurora"@,
                "es-es"@,
            ),
            r == Ok::<Speaker, SpeechCenterError>(Speaker::EsEsDavid) <==> speaker_selected(
                name@,
                language@,
                "david"@,
                "es-es"@,
            ),
            r == Ok::<Speaker, SpeechCenterError>(Speaker::PtBrLuma) <==> speaker_selected(
                name@,
                language@,
                "luma"@,
                "pt-br"@,
            ),
            r == Ok::<Speaker, SpeechCenterError>(Speaker::CaCaDavid) <==> speaker_selected(
                name@,
                language@,
                "david"@,
                "ca-ca"@,
            ),
            r is Err <==> !(speaker_selected(name@, language@, "tommy"@, "en-us"@)
                || speaker_selected(name@, language@, "annie"@, "en-us"@) || speaker_selected(
                name@,
                language@,
                "aurora"@,
                "es-es"@,
            ) || speaker_selected(name@, language@, "david"@, "es-es"@) || speaker_selected(
                name@,
                language@,
                "luma"@,
                "pt-br"@,
            ) || speaker_selected(name@, language@, "david"@, "ca-ca"@)),
            r matches Err(e) ==> e matches SpeechCenterError::Unknown(m) && m@ == name@ + seq![
                '/',
            ] + language@,
    {
        proof {
            reveal_strlit("tommy");
            reveal_strlit("annie");
            reveal_strlit("aurora");
            reveal_strlit("david");
            reveal_strlit("luma");
            reveal_strlit("en-us");
            reveal_strlit("es-es");
            reveal_strlit("pt-br");
            reveal_strlit("ca-ca");
            reveal_strlit("/");
            if matches_lowered(name@, "tommy"@) {
                lemma_matches_lowered_excludes(name@, "tommy"@, "annie"@, 0);
                lemma_matches_lowered_excludes(name@, "tommy"@, "david"@, 0);
            }
            if matches_lowered(name@, "annie"@) {
                lemma_matches_lowered_excludes(name@, "annie"@, "tommy"@, 0);
                lemma_matches_lowered_excludes(name@, "annie"@, "david"@, 0);
            }
            if matches_lowered(name@, "david"@) {
                lemma_matches_lowered_excludes(name@, "david"@, "tommy"@, 0);
                lemma_matches_lowered_excludes(name@, "david"@, "annie"@, 0);
            }
            if matches_lowered(language@, "es-es"@) {
                lemma_matches_lowered_excludes(language@, "es-es"@, "ca-ca"@, 0);
                lemma_matches_lowered_excludes(language@, "es-es"@, "en-us"@, 1);
            }
            if matches_lowered(language@, "ca-ca"@) {
                lemma_matches_lowered_excludes(language@, "ca-ca"@, "es-es"@, 0);
                lemma_matches_lowered_excludes(language@, "ca-ca"@, "en-us"@, 0);
            }
            if matches_lowered(language@, "en-us"@) {
                lemma_matches_lowered_excludes(language@, "en-us"@, "es-es"@, 1);
                lemma_matches_lowered_excludes(language@, "en-us"@, "ca-ca"@, 0);
            }
        }
        let tommy = eq_lowered(name, "tommy");
        let annie = eq_lowered(name, "annie");
        let aurora = eq_lowered(name, "aurora");
        let david = eq_lowered(name, "david");
        let luma = eq_lowered(name, "luma");
        let en_us = eq_lowered(language, "en-us");
        let es_es = eq_lowered(language, "es-es");
        let pt_br = eq_lowered(language, "pt-br");
        let ca_ca = eq_lowered(language, "ca-ca");
        if tommy && en_us {
            Ok(Speaker::EnUsTommy)
        } else if annie && en_us {
            Ok(Speaker::EnUsAnnie)
        } else if aurora && es_es {
            Ok(Speaker::EsEsAurora)
        } else if david && es_es {
            Ok(Speaker::EsEsDavid)
        } else if luma && pt_br {
            Ok(Speaker::PtBrLuma)
        } else if david && ca_ca {
            Ok(Speaker::CaCaDavid)
        } else {
            let mut m = name.to_owned();
            m.append("/");
            m.append(language);
            Err(SpeechCenterError::Unknown(m))
        }
    }

    /// The wire voice for this speaker.
    pub fn to_voice(self) -> (v: Voice)
        ensures
            v == voice_of(self),
    {
        match self {
            Speaker::EnUsTommy => Voice::EnUsTommy,
            Speaker::EnUsAnnie => Voice::EnUsAnnie,
            Speaker::EsEsAurora => Voice::EsEsAurora,
            Speaker::EsEsDavid => Voice::EsEsDavid,
            Speaker::PtBrLuma => Voice::PtBrLuma,
            Speaker::CaCaDavid => Voice::CaCaDavid,
        }
    }
}

/// Output sampling rate offered to callers. Only 8 kHz is supported.
#[derive(Clone, Copy, Debug, PartialEq, Eq, Structural)]
pub enum SampleRate {
    Khz8,
}

/// Sampling rate named on the wire.
#[derive(Clone, Copy, Debug, PartialEq, Eq, Structural)]
pub enum VoiceSamplingRate {
    VoiceSamplingRate8khz,
}

impl SampleRate {
    /// Parses a sampling rate in hertz. Exactly 8000 is accepted.
    pub fn try_from(sample_rate: u32) -> (r: Result<SampleRate, SpeechCenterError>)
        ensures
            r == Ok::<SampleRate, SpeechCenterError>(SampleRate::Khz8) <==> sample_rate == 8000,
            r is Err <==> sample_rate != 8000,
            r matches Err(e) ==> e matches SpeechCenterError::Unknown(_),
    {
        if sample_rate == 8000 {
            Ok(SampleRate::Khz8)
        } else {
            Err(
                SpeechCenterError::Unknown(
                    "Nonexistent Sample Rate option".to_owned(),
                ),
            )
        }
    }

    /// The rate in hertz.
    pub fn hertz(self) -> (r: u32)
        ensures
            r == 8000,
    {
        match self {
            SampleRate::Khz8 => 8000,
        }
    }

    /// The wire sampling rate.
    pub fn to_sampling_rate(self) -> (r: VoiceSamplingRate)
        ensures
            r == VoiceSamplingRate::VoiceSamplingRate8khz,
    {
        match self {
            SampleRate::Khz8 => VoiceSamplingRate::VoiceSamplingRate8khz,
        }
    }
}

/// Output audio format offered to callers: an encoding plus a header style.
#[derive(Clone, Copy, Debug, PartialEq, Eq, Structural)]
pub enum AudioFormat {
    WavLpcmS16le,
    RawLpcmS16le,
}

/// Audio format named on the wire.
#[derive(Clone, Copy, Debug, PartialEq, Eq, Structural)]
pub enum SynthesisFormat {
    WavLpcmS16le,
    RawLpcmS16le,
}

/// The wire format that an audio format selects.
pub open spec fn synthesis_format_of(f: AudioFormat) -> SynthesisFormat {
    match f {
        AudioFormat::WavLpcmS16le => SynthesisFormat::WavLpcmS16le,
        AudioFormat::RawLpcmS16le => SynthesisFormat::RawLpcmS16le,
    }
}

impl AudioFormat {
    /// Parses an audio format from an encoding and a header selector,
    /// accepting any letter case. Exactly PCM with a WAV or RAW header is
    /// accepted; anything else is an error carrying the offending pair.
    pub fn from_str(audio_encoding: &str, audio_header: &str) -> (r: Result<
        AudioFormat,
        SpeechCenterError,
    >)
        ensures
            r == Ok::<AudioFormat, SpeechCenterError>(AudioFormat::WavLpcmS16le) <==> (
            matches_lowered(audio_encoding@, "pcm"@) && matches_lowered(audio_header@, "wav"@)),
            r == Ok::<AudioFormat, SpeechCenterError>(AudioFormat::RawLpcmS16le) <==> (
            matches_lowered(audio_encoding@, "pcm"@) && matches_lowered(audio_header@, "raw"@)),
            r is Err <==> !(matches_lowered(audio_encoding@, "pcm"@) && (matches_lowered(
                audio_header@,
                "wav"@,
            ) || matches_lowered(audio_header@, "raw"@))),
            r matches Err(e) ==> e matches SpeechCenterError::Unknown(m) && m@ == audio_encoding@
                + seq!['/'] + audio_header@,
    {
        proof {
            reveal_strlit("pcm");
            reveal_strlit("wav");
            reveal_strlit("raw");
            reveal_strlit("/");
            if matches_lowered(audio_header@, "wav"@) {
                lemma_matches_lowered_excludes(audio_header@, "wav"@, "raw"@, 0);
            }
            if matches_lowered(audio_header@, "raw"@) {
                lemma_matches_lowered_excludes(audio_header@, "raw"@, "wav"@, 0);
            }
        }
        let pcm = eq_lowered(audio_encoding, "pcm");
        let wav = eq_lowered(audio_header, "wav");
        let raw = eq_lowered(audio_header, "raw");
        if pcm && wav {
            Ok(AudioFormat::WavLpcmS16le)
        } else if pcm && raw {
            Ok(AudioFormat::RawLpcmS16le)
        } else {
            let mut m = audio_encoding.to_owned();
            m.append("/");
            m.append(audio_header);
            Err(SpeechCenterError::Unknown(m))
        }
    }

    /// The wire format for this audio format.
    pub fn to_synthesis_format(self) -> (r: SynthesisFormat)
        ensures
            r == synthesis_format_of(self),
    {
        match self {
            AudioFormat::WavLpcmS16le => SynthesisFormat::WavLpcmS16le,
            AudioFormat::RawLpcmS16le => SynthesisFormat::RawLpcmS16le,
        }
    }
}

/// One synthesis call's request: the voice, the text to speak, and how the
/// returned audio is to be sampled and framed.
#[derive(Clone, Debug)]
pub struct SynthesisRequest {
    pub voice: Voice,
    pub text: String,
    pub voice_sampling_rate: VoiceSamplingRate,
    pub audio_format: SynthesisFormat,
}

/// Assembles the request for one synthesis call.
pub fn synthesis_request(
    speaker: Speaker,
    sample_rate: SampleRate,
    audio_format: AudioFormat,
    text: String,
) -> (r: SynthesisRequest)
    ensures
        r.voice == voice_of(speaker),
        r.text == text,
        r.voice_sampling_rate == VoiceSamplingRate::VoiceSamplingRate8khz,
        r.audio_format == synthesis_format_of(audio_format),
{
    SynthesisRequest {
        voice: speaker.to_voice(),
        text,
        voice_sampling_rate: sample_rate.to_sampling_rate(),
        audio_format: audio_format.to_synthesis_format(),
    }
}

} // verus!
