use batch_client::client::{Model, RecognitionInit, RecognitionResource, Topic};
use batch_client::error::SpeechCenterError;
use batch_client::synthesizer::{
    synthesis_request, AudioFormat, SampleRate, Speaker, SynthesisFormat, Voice,
    VoiceSamplingRate,
};

#[test]
fn topic_from_name_accepts_known_names() {
    assert_eq!(Topic::from_name("generic").unwrap(), Topic::Generic);
    assert_eq!(Topic::from_name("banking").unwrap(), Topic::Banking);
    assert_eq!(Topic::from_name("telco").unwrap(), Topic::Telco);
}

#[test]
fn topic_from_name_ignores_ascii_case() {
    assert_eq!(Topic::from_name("GENERIC").unwrap(), Topic::Generic);
    assert_eq!(Topic::from_name("Banking").unwrap(), Topic::Banking);
    assert_eq!(Topic::from_name("tElCo").unwrap(), Topic::Telco);
}

#[test]
fn topic_from_name_folds_the_kelvin_sign() {
    // U+212A, the kelvin sign, lowercases to 'k'
    assert_eq!(Topic::from_name("BAN\u{212A}ING").unwrap(), Topic::Banking);
    assert_eq!(Topic::from_name("ban\u{212A}ing").unwrap(), Topic::Banking);
}

#[test]
fn topic_from_name_rejects_unknown_names() {
    let err = Topic::from_name("sports").unwrap_err();
    match err {
        SpeechCenterError::Unknown(m) => assert_eq!(m, "sports"),
        other => panic!("wrong error variant: {:?}", other),
    }
    assert!(Topic::from_name("").is_err());
    assert!(Topic::from_name("generic ").is_err());
}

#[test]
fn topic_to_model_maps_each_topic() {
    assert_eq!(Topic::Generic.to_model(), Model::Generic);
    assert_eq!(Topic::Banking.to_model(), Model::Banking);
    assert_eq!(Topic::Telco.to_model(), Model::Telco);
}

#[test]
fn recognition_init_with_topic_names_the_model() {
    let init = RecognitionInit::with_topic("en-US", Topic::Banking);
    assert_eq!(init.language, "en-US");
    match init.resource {
        RecognitionResource::Model(m) => assert_eq!(m, Model::Banking),
        other => panic!("wrong resource: {:?}", other),
    }
}

#[test]
fn recognition_init_with_grammar_keeps_the_grammar() {
    let init = RecognitionInit::with_grammar("#ABNF 1.0;", "es-ES");
    assert_eq!(init.language, "es-ES");
    match init.resource {
        RecognitionResource::InlineGrammar(g) => assert_eq!(g, "#ABNF 1.0;"),
        other => panic!("wrong resource: {:?}", other),
    }
}

#[test]
fn speaker_from_name_accepts_known_pairs() {
    assert_eq!(Speaker::from_name("tommy", "en-US").unwrap(), Speaker::EnUsTommy);
    assert_eq!(Speaker::from_name("Annie", "EN-US").unwrap(), Speaker::EnUsAnnie);
    assert_eq!(Speaker::from_name("AURORA", "es-es").unwrap(), Speaker::EsEsAurora);
    assert_eq!(Speaker::from_name("david", "es-ES").unwrap(), Speaker::EsEsDavid);
    assert_eq!(Speaker::from_name("luma", "pt-BR").unwrap(), Speaker::PtBrLuma);
    assert_eq!(Speaker::from_name("david", "ca-CA").unwrap(), Speaker::CaCaDavid);
}

#[test]
fn speaker_from_name_rejects_unknown_pairs() {
    let err = Speaker::from_name("tommy", "es-ES").unwrap_err();
    match err {
        SpeechCenterError::Unknown(m) => assert_eq!(m, "tommy/es-ES"),
        other => panic!("wrong error variant: {:?}", other),
    }
    assert!(Speaker::from_name("aurora", "en-US").is_err());
    assert!(Speaker::from_name("", "").is_err());
}

#[test]
fn speaker_to_voice_maps_each_speaker() {
    assert_eq!(Speaker::EnUsTommy.to_voice(), Voice::EnUsTommy);
    assert_eq!(Speaker::EnUsAnnie.to_voice(), Voice::EnUsAnnie);
    assert_eq!(Speaker::EsEsAurora.to_voice(), Voice::EsEsAurora);
    assert_eq!(Speaker::EsEsDavid.to_voice(), Voice::EsEsDavid);
    assert_eq!(Speaker::PtBrLuma.to_voice(), Voice::PtBrLuma);
    assert_eq!(Speaker::CaCaDavid.to_voice(), Voice::CaCaDavid);
}

#[test]
fn sample_rate_accepts_only_8000() {
    assert_eq!(SampleRate::try_from(8000).unwrap(), SampleRate::Khz8);
    assert!(SampleRate::try_from(16000).is_err());
    assert!(SampleRate::try_from(0).is_err());
    assert_eq!(SampleRate::Khz8.hertz(), 8000);
    assert_eq!(
        SampleRate::Khz8.to_sampling_rate(),
        VoiceSamplingRate::VoiceSamplingRate8khz
    );
}

#[test]
fn audio_format_from_str_accepts_pcm_wav_and_raw() {
    assert_eq!(AudioFormat::from_str("PCM", "WAV").unwrap(), AudioFormat::WavLpcmS16le);
    assert_eq!(AudioFormat::from_str("pcm", "raw").unwrap(), AudioFormat::RawLpcmS16le);
    let err = AudioFormat::from_str("opus", "ogg").unwrap_err();
    match err {
        SpeechCenterError::Unknown(m) => assert_eq!(m, "opus/ogg"),
        other => panic!("wrong error variant: {:?}", other),
    }
}

#[test]
fn audio_format_to_synthesis_format_maps_each_format() {
    assert_eq!(
        AudioFormat::WavLpcmS16le.to_synthesis_format(),
        SynthesisFormat::WavLpcmS16le
    );
    assert_eq!(
        AudioFormat::RawLpcmS16le.to_synthesis_format(),
        SynthesisFormat::RawLpcmS16le
    );
}

#[test]
fn synthesis_request_assembles_all_fields() {
    let r = synthesis_request(
        Speaker::EsEsAurora,
        SampleRate::Khz8,
        AudioFormat::RawLpcmS16le,
        "hola".to_string(),
    );
    assert_eq!(r.voice, Voice::EsEsAurora);
    assert_eq!(r.text, "hola");
    assert_eq!(r.voice_sampling_rate, VoiceSamplingRate::VoiceSamplingRate8khz);
    assert_eq!(r.audio_format, SynthesisFormat::RawLpcmS16le);
}
