use autoaim::ipc::{
    parse_runtime_provider, provider_prefers_onnx, InferenceProvider, CAPTURE_CONTROL_PIPE,
    INFERENCE_EVENTS_PIPE,
};

#[test]
fn runtime_provider_names_parse_case_insensitively() {
    assert_eq!(parse_runtime_provider("cpu"), Ok(InferenceProvider::Cpu));
    assert_eq!(parse_runtime_provider("CUDA"), Ok(InferenceProvider::Cuda));
    assert_eq!(parse_runtime_provider("Tensor_RT"), Ok(InferenceProvider::TensorRt));
    assert_eq!(parse_runtime_provider("tensor-rt"), Ok(InferenceProvider::TensorRt));
    assert_eq!(parse_runtime_provider("DirectML"), Ok(InferenceProvider::DirectMl));
    assert_eq!(parse_runtime_provider("direct-ml"), Ok(InferenceProvider::DirectMl));
    assert_eq!(
        parse_runtime_provider("Vulkan"),
        Err("unsupported inference provider: vulkan".to_string())
    );
    assert_eq!(InferenceProvider::default(), InferenceProvider::Cpu);
}

#[test]
fn gpu_providers_prefer_onnx_models() {
    assert!(!provider_prefers_onnx(InferenceProvider::Cpu));
    assert!(provider_prefers_onnx(InferenceProvider::Cuda));
    assert!(provider_prefers_onnx(InferenceProvider::TensorRt));
    assert!(provider_prefers_onnx(InferenceProvider::DirectMl));
}

#[test]
fn pipe_names_are_local_named_pipes() {
    assert_eq!(CAPTURE_CONTROL_PIPE, r"\\.\pipe\autoaim.capture.control");
    assert_eq!(INFERENCE_EVENTS_PIPE, r"\\.\pipe\autoaim.inference.events");
}
