//! Review-only IPC vocabulary: message kinds, inference providers and pipe names.

use vstd::prelude::*;

use crate::text::{ascii_lower, lemma_ascii_lower_fixed, push_str, str_eq, to_ascii_lowercase};

verus! {

/// Named pipe that carries capture control messages.
pub const CAPTURE_CONTROL_PIPE: &'static str = "\\\\.\\pipe\\autoaim.capture.control";

/// Named pipe that carries inference events.
pub const INFERENCE_EVENTS_PIPE: &'static str = "\\\\.\\pipe\\autoaim.inference.events";

/// The `type` tag of an IPC message.
#[derive(Clone, Copy, Debug, PartialEq, Eq, Structural)]
pub enum MessageType {
    CaptureFrame,
    InferenceResult,
    AssistSuggestion,
    RuntimeConfig,
}

/// Inference provider named in a runtime configuration message.
#[derive(Clone, Copy, Debug, PartialEq, Eq, Structural)]
pub enum InferenceProvider {
    Cpu,
    Cuda,
    TensorRt,
    DirectMl,
}

impl Default for InferenceProvider {
    fn default() -> (provider: Self)
        ensures
            provider == InferenceProvider::Cpu,
    {
        InferenceProvider::Cpu
    }
}

/// The provider a lower-case runtime-configuration name stands for.
pub open spec fn runtime_provider_for(lower: Seq<char>) -> Option<InferenceProvider> {
    if lower == "cuda"@ {
        Some(InferenceProvider::Cuda)
    } else if lower == "tensorrt"@ || lower == "tensor_rt"@ || lower == "tensor-rt"@ {
        Some(InferenceProvider::TensorRt)
    } else if lower == "directml"@ || lower == "direct_ml"@ || lower == "direct-ml"@ {
        Some(InferenceProvider::DirectMl)
    } else if lower == "cpu"@ {
        Some(InferenceProvider::Cpu)
    } else {
        None
    }
}

/// The name under which a provider travels in a runtime configuration message.
pub open spec fn provider_wire_name(provider: InferenceProvider) -> Seq<char> {
    match provider {
        InferenceProvider::Cpu => "cpu"@,
        InferenceProvider::Cuda => "cuda"@,
        InferenceProvider::TensorRt => "tensorrt"@,
        InferenceProvider::DirectMl => "directml"@,
    }
}

/// Each of the four supported providers is accepted under its wire name.
pub proof fn lemma_wire_names_parse(provider: InferenceProvider)
    ensures
        runtime_provider_for(ascii_lower(provider_wire_name(provider))) == Some(provider),
{
    reveal_strlit("cpu");
    reveal_strlit("cuda");
    reveal_strlit("tensorrt");
    reveal_strlit("directml");
    reveal_strlit("tensor_rt");
    reveal_strlit("tensor-rt");
    reveal_strlit("direct_ml");
    reveal_strlit("direct-ml");
    lemma_ascii_lower_fixed(provider_wire_name(provider));
    match provider {
        InferenceProvider::Cpu => {
            assert("cpu"@.len() != "cuda"@.len());
            assert("cpu"@.len() != "tensorrt"@.len());
            assert("cpu"@.len() != "tensor_rt"@.len());
            assert("cpu"@.len() != "directml"@.len());
            assert("cpu"@.len() != "direct_ml"@.len());
        },
        InferenceProvider::Cuda => {},
        InferenceProvider::TensorRt => {
            assert("tensorrt"@.len() != "cuda"@.len());
        },
        InferenceProvider::DirectMl => {
            assert("directml"@.len() != "cuda"@.len());
            assert("directml"@[0] != "tensorrt"@[0]);
            assert("directml"@.len() != "tensor_rt"@.len());
            assert("directml"@.len() != "tensor-rt"@.len());
        },
    }
}

/// Reads the provider of a runtime configuration request, ignoring ASCII case; an
/// unknown name is refused with "unsupported inference provider: " and the
/// lower-cased name.
pub fn parse_runtime_provider(name: &str) -> (provider: Result<InferenceProvider, String>)
    ensures
        match runtime_provider_for(ascii_lower(name@)) {
            Some(p) => provider == Ok::<InferenceProvider, String>(p),
            None => provider matches Err(message) && message@ == "unsupported inference provider: "@
                + ascii_lower(name@),
        },
{
    let lower = to_ascii_lowercase(name);
    let value = lower.as_str();
    if str_eq(value, "cuda") {
        Ok(InferenceProvider::Cuda)
    } else if str_eq(value, "tensorrt") || str_eq(value, "tensor_rt") || str_eq(value, "tensor-rt") {
        Ok(InferenceProvider::TensorRt)
    } else if str_eq(value, "directml") || str_eq(value, "direct_ml") || str_eq(value, "direct-ml") {
        Ok(InferenceProvider::DirectMl)
    } else if str_eq(value, "cpu") {
        Ok(InferenceProvider::Cpu)
    } else {
        let mut message = String::new();
        push_str(&mut message, "unsupported inference provider: ");
        push_str(&mut message, value);
        Err(message)
    }
}

/// Whether the provider prefers the bundled ONNX models (every GPU provider).
pub fn provider_prefers_onnx(provider: InferenceProvider) -> (onnx: bool)
    ensures
        onnx == (provider != InferenceProvider::Cpu),
{
    match provider {
        InferenceProvider::DirectMl | InferenceProvider::Cuda | InferenceProvider::TensorRt => true,
        InferenceProvider::Cpu => false,
    }
}

} // verus!
