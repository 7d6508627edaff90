//! Recognition-side data: topics, wire models and the initial request.
//!
//! One recognition call sends an initial message naming the language and the
//! recognition resource (a closed-set topic model or an inline grammar),
//! followed by the audio bytes. Building that initial message is plain
//! computation and is verified here; the gRPC stream that carries it is the
//! transport's concern.

use vstd::prelude::*;

use crate::error::SpeechCenterError;
use crate::text::eq_lowered;
use crate::text::lower_scalar;
use crate::text::matches_lowered;

verus! {

/// Recognition domain selector offered to callers.
#[derive(Clone, Copy, Debug, PartialEq, Eq, Structural)]
pub enum Topic {
    Generic,
    Banking,
    Telco,
}

/// Recognition model named on the wire; one per topic.
#[derive(Clone, Copy, Debug, PartialEq, Eq, Structural)]
pub enum Model {
    Generic,
    Banking,
    Telco,
}

/// The model that a topic selects on the wire.
pub open spec fn model_of(topic: Topic) -> Model {
    match topic {
        Topic::Generic => Model::Generic,
        Topic::Banking => Model::Banking,
        Topic::Telco => Model::Telco,
    }
}

impl Topic {
    /// Parses a topic selector, accepting any letter case. Exactly the names
    /// of the three topics are accepted; anything else is an error carrying
    /// the offending name.
    pub fn from_name(name: &str) -> (r: Result<Topic, SpeechCenterError>)
        ensures
            r == Ok::<Topic, SpeechCenterError>(Topic::Generic) <==> matches_lowered(
                name@,
                "generic"@,
            ),
            r == Ok::<Topic, SpeechCenterError>(Topic::Banking) <==> matches_lowered(
                name@,
                "banking"@,
            ),
            r == Ok::<Topic, SpeechCenterError>(Topic::Telco) <==> matches_lowered(
                name@,
                "telco"@,
            ),
            r is Err <==> !(matches_lowered(name@, "generic"@) || matches_lowered(
                name@,
                "banking"@,
            ) || matches_lowered(name@, "telco"@)),
            r matches Err(e) ==> e matches SpeechCenterError::Unknown(m) && m@ == name@,
    {
        proof {
            reveal_strlit("generic");
            reveal_strlit("banking");
            reveal_strlit("telco");
            if matches_lowered(name@, "generic"@) && matches_lowered(name@, "banking"@) {
                assert(lower_scalar(name@[0] as u32) == ("generic"@[0]) as u32);
                assert(lower_scalar(name@[0] as u32) == ("banking"@[0]) as u32);
                assert(false);
            }
        }
        if eq_lowered(name, "generic") {
            Ok(Topic::Generic)
        } else if eq_lowered(name, "banking") {
            Ok(Topic::Banking)
        } else if eq_lowered(name, "telco") {
            Ok(Topic::Telco)
        } else {
            Err(SpeechCenterError::Unknown(name.to_owned()))
        }
    }

    /// The wire model for this topic.
    pub fn to_model(self) -> (m: Model)
        ensures
            m == model_of(self),
    {
        match self {
            Topic::Generic => Model::Generic,
            Topic::Banking => Model::Banking,
            Topic::Telco => Model::Telco,
        }
    }
}

/// The resource half of the initial recognition message: either a closed-set
/// model or an inline grammar.
#[derive(Clone, Debug)]
pub enum RecognitionResource {
    Model(Model),
    InlineGrammar(String),
}

/// The initial message of a recognition call: the language to recognise in
/// and the resource to recognise against.
#[derive(Clone, Debug)]
pub struct RecognitionInit {
    pub language: String,
    pub resource: RecognitionResource,
}

impl RecognitionInit {
    /// The initial message for a topic-driven recognition.
    pub fn with_topic(language: &str, topic: Topic) -> (r: RecognitionInit)
        ensures
            r.language@ == language@,
            r.resource matches RecognitionResource::Model(m) && m == model_of(topic),
    {
        RecognitionInit {
            language: language.to_owned(),
            resource: RecognitionResource::Model(topic.to_model()),
        }
    }

    /// The initial message for a grammar-driven recognition.
    pub fn with_grammar(grammar: &str, language: &str) -> (r: RecognitionInit)
        ensures
            r.language@ == language@,
            r.resource matches RecognitionResource::InlineGrammar(g) && g@ == grammar@,
    {
        RecognitionInit {
            language: language.to_owned(),
            resource: RecognitionResource::InlineGrammar(grammar.to_owned()),
        }
    }
}

} // verus!
