//! Detector configuration and model selection, the YOLOv8 output layout, and the
//! status and error texts of detection runs.

use vstd::prelude::*;

use crate::text::{
    lemma_ascii_lower_fixed, ascii_lower, contains_seq, decimal, eq_ignore_ascii_case, is_blank, push_decimal, push_str,
    str_contains, str_eq, str_is_blank, to_ascii_lowercase, trim, trimmed,
};

verus! {

/// Input edge of the MoveNet Lightning model.
pub const MOVENET_LIGHTNING_INPUT_SIZE: u32 = 192;

/// Input edge of the MoveNet Thunder model.
pub const MOVENET_THUNDER_INPUT_SIZE: u32 = 256;

/// Input edge of the YOLOv8 models.
pub const YOLOV8_INPUT_SIZE: u32 = 640;

/// Keypoints in a MoveNet / YOLOv8-pose skeleton.
pub const MOVENET_KEYPOINT_COUNT: usize = 17;

/// Execution provider requested for native inference.
#[derive(Clone, Copy, Debug, PartialEq, Eq, Structural)]
pub enum NativeInferenceProvider {
    Cpu,
    Cuda,
    TensorRt,
    DirectMl,
}

impl Default for NativeInferenceProvider {
    fn default() -> (provider: Self)
        ensures
            provider == NativeInferenceProvider::Cpu,
    {
        NativeInferenceProvider::Cpu
    }
}

/// Canonical name of a provider.
pub open spec fn native_provider_name(provider: NativeInferenceProvider) -> Seq<char> {
    match provider {
        NativeInferenceProvider::Cpu => "cpu"@,
        NativeInferenceProvider::Cuda => "cuda"@,
        NativeInferenceProvider::TensorRt => "tensorrt"@,
        NativeInferenceProvider::DirectMl => "directml"@,
    }
}

/// The provider a lower-case name stands for, spelling variants included.
pub open spec fn native_provider_for(lower: Seq<char>) -> Option<NativeInferenceProvider> {
    if lower == "cpu"@ {
        Some(NativeInferenceProvider::Cpu)
    } else if lower == "cuda"@ {
        Some(NativeInferenceProvider::Cuda)
    } else if lower == "tensorrt"@ || lower == "tensor_rt"@ || lower == "tensor-rt"@ {
        Some(NativeInferenceProvider::TensorRt)
    } else if lower == "directml"@ || lower == "direct_ml"@ || lower == "direct-ml"@ {
        Some(NativeInferenceProvider::DirectMl)
    } else {
        None
    }
}

impl NativeInferenceProvider {
    /// Parses a provider name, ignoring ASCII case.
    pub fn from_name(value: &str) -> (provider: Option<Self>)
        ensures
            provider == native_provider_for(ascii_lower(value@)),
    {
        let lower = to_ascii_lowercase(value);
        let name = lower.as_str();
        if str_eq(name, "cpu") {
            Some(NativeInferenceProvider::Cpu)
        } else if str_eq(name, "cuda") {
            Some(NativeInferenceProvider::Cuda)
        } else if str_eq(name, "tensorrt") || str_eq(name, "tensor_rt") || str_eq(name, "tensor-rt") {
            Some(NativeInferenceProvider::TensorRt)
        } else if str_eq(name, "directml") || str_eq(name, "direct_ml") || str_eq(name, "direct-ml") {
            Some(NativeInferenceProvider::DirectMl)
        } else {
            None
        }
    }

    /// The canonical provider name.
    pub fn as_str(self) -> (name: &'static str)
        ensures
            name@ == native_provider_name(self),
    {
        match self {
            NativeInferenceProvider::Cpu => "cpu",
            NativeInferenceProvider::Cuda => "cuda",
            NativeInferenceProvider::TensorRt => "tensorrt",
            NativeInferenceProvider::DirectMl => "directml",
        }
    }
}

/// Providers that run through ONNX Runtime execution providers (all but the CPU path).
pub open spec fn runs_on_onnx_runtime(provider: NativeInferenceProvider) -> bool {
    provider != NativeInferenceProvider::Cpu
}

/// Whether the provider is served by an ONNX Runtime execution provider, which is
/// also when bundled ONNX models are preferred over TFLite ones.
pub fn is_ort_provider(provider: NativeInferenceProvider) -> (ort: bool)
    ensures
        ort == runs_on_onnx_runtime(provider),
{
    match provider {
        NativeInferenceProvider::DirectMl | NativeInferenceProvider::Cuda
        | NativeInferenceProvider::TensorRt => true,
        NativeInferenceProvider::Cpu => false,
    }
}

/// Input edge for a MoveNet model path: Thunder when the name says so, else Lightning.
pub open spec fn movenet_size_for(model_path: Option<Seq<char>>) -> u32 {
    match model_path {
        Some(path) => if contains_seq(ascii_lower(path), "thunder"@) {
            MOVENET_THUNDER_INPUT_SIZE
        } else {
            MOVENET_LIGHTNING_INPUT_SIZE
        },
        None => MOVENET_LIGHTNING_INPUT_SIZE,
    }
}

/// The view of an optional path.
pub open spec fn path_view(model_path: Option<String>) -> Option<Seq<char>> {
    match model_path {
        Some(path) => Some(path@),
        None => None,
    }
}

/// The MoveNet input edge implied by the configured model path.
pub fn movenet_input_size(model_path: &Option<String>) -> (size: u32)
    ensures
        size == movenet_size_for(path_view(*model_path)),
{
    match model_path {
        Some(path) => {
            let lower = to_ascii_lowercase(path.as_str());
            if str_contains(lower.as_str(), "thunder") {
                MOVENET_THUNDER_INPUT_SIZE
            } else {
                MOVENET_LIGHTNING_INPUT_SIZE
            }
        },
        None => MOVENET_LIGHTNING_INPUT_SIZE,
    }
}

/// Drops a configured model path that is empty or only white space; keeps any other as given.
pub fn normalize_model_path(model_path: Option<String>) -> (kept: Option<String>)
    ensures
        match model_path {
            Some(path) => if is_blank(path@) {
                kept is None
            } else {
                kept == Some(path)
            },
            None => kept is None,
        },
{
    match model_path {
        Some(path) => if str_is_blank(path.as_str()) {
            None
        } else {
            Some(path)
        },
        None => None,
    }
}

/// Every provider's canonical name parses back to that provider.
pub proof fn lemma_provider_name_roundtrip(provider: NativeInferenceProvider)
    ensures
        native_provider_for(ascii_lower(native_provider_name(provider))) == Some(provider),
{
    reveal_strlit("cpu");
    reveal_strlit("cuda");
    reveal_strlit("tensorrt");
    reveal_strlit("directml");
    let name = native_provider_name(provider);
    lemma_ascii_lower_fixed(name);
    match provider {
        NativeInferenceProvider::Cpu => {},
        NativeInferenceProvider::Cuda => {
            assert("cuda"@[1] != "cpu"@[1]);
        },
        NativeInferenceProvider::TensorRt => {
            assert("tensorrt"@.len() != "cpu"@.len());
            assert("tensorrt"@.len() != "cuda"@.len());
        },
        NativeInferenceProvider::DirectMl => {
            assert("directml"@.len() != "cpu"@.len());
            assert("directml"@.len() != "cuda"@.len());
            assert("directml"@[0] != "tensorrt"@[0]);
            reveal_strlit("tensor_rt");
            reveal_strlit("tensor-rt");
            assert("directml"@.len() != "tensor_rt"@.len());
            assert("directml"@.len() != "tensor-rt"@.len());
        },
    }
}

/// Channels per anchor of a YOLOv8 detection head (4 box values + 80 class scores).
pub const YOLOV8_DETECT_OUTPUT_CHANNELS: usize = 84;

/// Channels per anchor of a YOLOv8-pose head (4 box values, 1 score, 17 x 3 keypoint values).
pub const YOLOV8_POSE_OUTPUT_CHANNELS: usize = 56;

/// Which YOLOv8 head produced an output tensor.
#[derive(Clone, Copy, Debug, PartialEq, Eq, Structural)]
pub enum YoloV8OutputKind {
    Detect,
    Pose,
}

/// How a flat YOLOv8 output is laid out: `channels` values for each of `anchors`
/// anchors, either channel-major (`channels_first`) or anchor-major.
#[derive(Clone, Copy, Debug, PartialEq, Eq, Structural)]
pub struct YoloV8OutputLayout {
    pub kind: YoloV8OutputKind,
    pub channels: usize,
    pub anchors: usize,
    pub channels_first: bool,
}

/// Why a YOLOv8 output could not be laid out.
#[derive(Clone, Copy, Debug, PartialEq, Eq, Structural)]
pub enum YoloLayoutError {
    /// The output holds no values.
    EmptyOutput,
    /// Neither the shape nor the value count fits an 84- or 56-channel head.
    UnrecognizedShape,
}

/// The head kind with exactly this many channels.
pub open spec fn kind_for_channels(channels: nat) -> Option<YoloV8OutputKind> {
    if channels == 84 {
        Some(YoloV8OutputKind::Detect)
    } else if channels == 56 {
        Some(YoloV8OutputKind::Pose)
    } else {
        None
    }
}

/// A layout read from an adjacent pair of dimensions: the pair must multiply to the
/// value count, and the left (channel-major) or else the right (anchor-major)
/// dimension must be a head's channel count.
pub open spec fn layout_from_pair(left: nat, right: nat, values_len: nat) -> Option<
    YoloV8OutputLayout,
> {
    if left * right != values_len {
        None
    } else if kind_for_channels(left) is Some {
        Some(
            YoloV8OutputLayout {
                kind: kind_for_channels(left)->0,
                channels: left as usize,
                anchors: right as usize,
                channels_first: true,
            },
        )
    } else if kind_for_channels(right) is Some {
        Some(
            YoloV8OutputLayout {
                kind: kind_for_channels(right)->0,
                channels: right as usize,
                anchors: left as usize,
                channels_first: false,
            },
        )
    } else {
        None
    }
}

/// The dimensions of a shape that are larger than one, in order.
pub open spec fn long_dims(shape: Seq<usize>) -> Seq<usize>
    decreases shape.len(),
{
    if shape.len() == 0 {
        Seq::empty()
    } else {
        let rest = long_dims(shape.drop_last());
        if shape.last() > 1 {
            rest.push(shape.last())
        } else {
            rest
        }
    }
}

/// Tries the adjacent pairs `(dims[k], dims[k + 1])` from `k` down to 0 and keeps the first fit.
pub open spec fn layout_from_pairs(dims: Seq<usize>, k: int, values_len: nat) -> Option<
    YoloV8OutputLayout,
>
    decreases k + 1,
{
    if k < 0 || k + 1 >= dims.len() {
        None
    } else {
        match layout_from_pair(dims[k] as nat, dims[k + 1] as nat, values_len) {
            Some(layout) => Some(layout),
            None => layout_from_pairs(dims, k - 1, values_len),
        }
    }
}

/// The layout of a YOLOv8 output with this shape and value count: the last adjacent
/// pair of non-unit dimensions that fits, else a channel-major layout of whichever
/// single head the value count is a multiple of.
pub open spec fn yolo_layout(shape: Seq<usize>, values_len: nat) -> Result<
    YoloV8OutputLayout,
    YoloLayoutError,
> {
    let dims = long_dims(shape);
    if values_len == 0 {
        Err(YoloLayoutError::EmptyOutput)
    } else if layout_from_pairs(dims, dims.len() - 2, values_len) is Some {
        Ok(layout_from_pairs(dims, dims.len() - 2, values_len)->0)
    } else if values_len % 84 == 0 && values_len % 56 != 0 {
        Ok(
            YoloV8OutputLayout {
                kind: YoloV8OutputKind::Detect,
                channels: 84,
                anchors: (values_len / 84) as usize,
                channels_first: true,
            },
        )
    } else if values_len % 84 != 0 && values_len % 56 == 0 {
        Ok(
            YoloV8OutputLayout {
                kind: YoloV8OutputKind::Pose,
                channels: 56,
                anchors: (values_len / 56) as usize,
                channels_first: true,
            },
        )
    } else {
        Err(YoloLayoutError::UnrecognizedShape)
    }
}

fn yolo_kind_from_channels(channels: usize) -> (kind: Option<YoloV8OutputKind>)
    ensures
        kind == kind_for_channels(channels as nat),
{
    if channels == YOLOV8_DETECT_OUTPUT_CHANNELS {
        Some(YoloV8OutputKind::Detect)
    } else if channels == YOLOV8_POSE_OUTPUT_CHANNELS {
        Some(YoloV8OutputKind::Pose)
    } else {
        None
    }
}

fn yolo_layout_from_dims(left: usize, right: usize, values_len: usize) -> (layout: Option<
    YoloV8OutputLayout,
>)
    ensures
        layout == layout_from_pair(left as nat, right as nat, values_len as nat),
{
    let product = left.checked_mul(right);
    match product {
        None => {
            proof {
                assert(left * right != values_len as nat);
            }
            return None;
        },
        Some(p) => {
            if p != values_len {
                return None;
            }
        },
    }
    match yolo_kind_from_channels(left) {
        Some(kind) => {
            return Some(YoloV8OutputLayout { kind, channels: left, anchors: right, channels_first: true });
        },
        None => {},
    }
    match yolo_kind_from_channels(right) {
        Some(kind) => Some(
            YoloV8OutputLayout { kind, channels: right, anchors: left, channels_first: false },
        ),
        None => None,
    }
}

/// Works out how a YOLOv8 output of this shape and value count is laid out.
pub fn yolo_output_layout(shape: &[usize], values_len: usize) -> (layout: Result<
    YoloV8OutputLayout,
    YoloLayoutError,
>)
    ensures
        layout == yolo_layout(shape@, values_len as nat),
        layout matches Ok(l) ==> l.channels * l.anchors == values_len && kind_for_channels(
            l.channels as nat,
        ) == Some(l.kind),
{
    if values_len == 0 {
        return Err(YoloLayoutError::EmptyOutput);
    }
    let mut dims: Vec<usize> = Vec::new();
    let mut i: usize = 0;
    while i < shape.len()
        invariant
            i <= shape@.len(),
            dims@ == long_dims(shape@.subrange(0, i as int)),
            dims@.len() <= i,
        decreases shape@.len() - i,
    {
        assert(shape@.subrange(0, i + 1).drop_last() =~= shape@.subrange(0, i as int));
        if shape[i] > 1 {
            dims.push(shape[i]);
        }
        i = i + 1;
    }
    assert(shape@.subrange(0, shape@.len() as int) =~= shape@);
    let ghost all = dims@;
    let mut k: usize = dims.len();
    // Pairs are tried from the last one backwards; `k` counts the pairs still untried.
    while k >= 2
        invariant
            values_len > 0,
            all == dims@,
            all == long_dims(shape@),
            k <= all.len(),
            layout_from_pairs(all, all.len() - 2, values_len as nat) == layout_from_pairs(
                all,
                k - 2,
                values_len as nat,
            ),
        decreases k,
    {
        let left = dims[k - 2];
        let right = dims[k - 1];
        match yolo_layout_from_dims(left, right, values_len) {
            Some(layout) => {
                proof {
                    lemma_pair_layout_fits(left as nat, right as nat, values_len as nat);
                    assert(layout_from_pairs(all, k - 2, values_len as nat) == Some(layout));
                }
                return Ok(layout);
            },
            None => {},
        }
        k = k - 1;
    }
    let detect_match = values_len % YOLOV8_DETECT_OUTPUT_CHANNELS == 0;
    let pose_match = values_len % YOLOV8_POSE_OUTPUT_CHANNELS == 0;
    if detect_match && !pose_match {
        Ok(
            YoloV8OutputLayout {
                kind: YoloV8OutputKind::Detect,
                channels: YOLOV8_DETECT_OUTPUT_CHANNELS,
                anchors: values_len / YOLOV8_DETECT_OUTPUT_CHANNELS,
                channels_first: true,
            },
        )
    } else if !detect_match && pose_match {
        Ok(
            YoloV8OutputLayout {
                kind: YoloV8OutputKind::Pose,
                channels: YOLOV8_POSE_OUTPUT_CHANNELS,
                anchors: values_len / YOLOV8_POSE_OUTPUT_CHANNELS,
                channels_first: true,
            },
        )
    } else {
        Err(YoloLayoutError::UnrecognizedShape)
    }
}

proof fn lemma_pair_layout_fits(left: nat, right: nat, values_len: nat)
    requires
        layout_from_pair(left, right, values_len) is Some,
        left <= usize::MAX,
        right <= usize::MAX,
    ensures
        ({
            let l = layout_from_pair(left, right, values_len)->0;
            l.channels * l.anchors == values_len && kind_for_channels(l.channels as nat) == Some(
                l.kind,
            )
        }),
{
    let l = layout_from_pair(left, right, values_len)->0;
    if kind_for_channels(left) is None {
        assert(l.channels * l.anchors == right * left);
        assert(right * left == left * right) by (nonlinear_arith);
    }
}

/// Flat index of `channel` for `anchor` in an output with this layout.
pub open spec fn yolo_index(layout: YoloV8OutputLayout, channel: nat, anchor: nat) -> nat {
    if layout.channels_first {
        channel * (layout.anchors as nat) + anchor
    } else {
        anchor * (layout.channels as nat) + channel
    }
}

/// Position of one channel of one anchor in the flat output; always inside the
/// `channels * anchors` values.
pub fn yolo_value_index(layout: YoloV8OutputLayout, channel: usize, anchor: usize) -> (index:
    usize)
    requires
        channel < layout.channels,
        anchor < layout.anchors,
        layout.channels * layout.anchors <= usize::MAX,
    ensures
        index == yolo_index(layout, channel as nat, anchor as nat),
        index < layout.channels * layout.anchors,
{
    if layout.channels_first {
        assert(channel * layout.anchors + anchor < layout.channels * layout.anchors)
            by (nonlinear_arith)
            requires channel < layout.channels, anchor < layout.anchors;
        channel * layout.anchors + anchor
    } else {
        assert(anchor * layout.channels + channel < layout.channels * layout.anchors)
            by (nonlinear_arith)
            requires channel < layout.channels, anchor < layout.anchors;
        anchor * layout.channels + channel
    }
}

/// Why native inference could not produce a result.
#[derive(Clone, Debug, PartialEq, Eq)]
pub enum InferenceError {
    InvalidFrame(&'static str),
    InvalidMoveNetOutput(String),
    ModelLoad(String),
    ModelRun(String),
}

/// The text shown for an inference error.
pub open spec fn inference_error_text(error: InferenceError) -> Seq<char> {
    match error {
        InferenceError::InvalidFrame(message) => message@,
        InferenceError::InvalidMoveNetOutput(message) => message@,
        InferenceError::ModelLoad(message) => "failed to load MoveNet: "@ + message@,
        InferenceError::ModelRun(message) => "failed to run MoveNet: "@ + message@,
    }
}

impl InferenceError {
    /// Renders the error the way it is shown to the user.
    pub fn message(&self) -> (text: String)
        ensures
            text@ == inference_error_text(*self),
    {
        let mut text = String::new();
        match self {
            InferenceError::InvalidFrame(message) => push_str(&mut text, message),
            InferenceError::InvalidMoveNetOutput(message) => push_str(&mut text, message.as_str()),
            InferenceError::ModelLoad(message) => {
                push_str(&mut text, "failed to load MoveNet: ");
                push_str(&mut text, message.as_str());
            },
            InferenceError::ModelRun(message) => {
                push_str(&mut text, "failed to run MoveNet: ");
                push_str(&mut text, message.as_str());
            },
        }
        text
    }
}

/// Status line of the model-free visual detector: whether a model file was configured
/// (but no backend could run it) and how many candidates it found.
pub open spec fn visual_status_text(
    provider: NativeInferenceProvider,
    model_configured: bool,
    candidates: nat,
) -> Seq<char> {
    if model_configured {
        native_provider_name(provider) + " model configured but MoveNet backend is unavailable; visual detector produced "@
            + decimal(candidates) + " person candidate(s)"@
    } else {
        "native Windows frame capture is active; no model file configured, visual detector produced "@
            + decimal(candidates) + " person candidate(s)"@
    }
}

/// The status reported when the visual detector stands in for a model.
pub fn visual_detector_status(
    provider: NativeInferenceProvider,
    model_configured: bool,
    candidates: usize,
) -> (status: String)
    ensures
        status@ == visual_status_text(provider, model_configured, candidates as nat),
{
    let mut status = String::new();
    if model_configured {
        push_str(&mut status, provider.as_str());
        push_str(&mut status, " model configured but MoveNet backend is unavailable; visual detector produced ");
    } else {
        push_str(
            &mut status,
            "native Windows frame capture is active; no model file configured, visual detector produced ",
        );
    }
    push_decimal(&mut status, candidates as u128);
    push_str(&mut status, " person candidate(s)");
    status
}

/// The model family behind a detection run.
#[derive(Clone, Copy, Debug, PartialEq, Eq, Structural)]
pub enum ModelFamily {
    YoloV8,
    MoveNet,
}

/// How a model family is named in status lines.
pub open spec fn family_name(family: ModelFamily) -> Seq<char> {
    match family {
        ModelFamily::YoloV8 => "YOLOv8"@,
        ModelFamily::MoveNet => "MoveNet"@,
    }
}

fn family_str(family: ModelFamily) -> (name: &'static str)
    ensures
        name@ == family_name(family),
{
    match family {
        ModelFamily::YoloV8 => "YOLOv8",
        ModelFamily::MoveNet => "MoveNet",
    }
}

/// The status of a multi-region scan: how many regions of the frame went through the model.
pub open spec fn scan_status_text(family: ModelFamily, regions: nat) -> Seq<char> {
    "scanned "@ + decimal(regions) + " "@ + family_name(family) + " region(s)"@
}

/// Reports how many regions a scan ran the model on.
pub fn scan_status(family: ModelFamily, regions: usize) -> (status: String)
    ensures
        status@ == scan_status_text(family, regions as nat),
{
    let mut status = String::new();
    push_str(&mut status, "scanned ");
    push_decimal(&mut status, regions as u128);
    push_str(&mut status, " ");
    push_str(&mut status, family_str(family));
    push_str(&mut status, " region(s)");
    status
}

/// The status of a detection run by a model backend.
pub open spec fn backend_status_text(
    family: ModelFamily,
    runtime: Seq<char>,
    provider: NativeInferenceProvider,
    poses: nat,
    objects: nat,
    scan: Seq<char>,
) -> Seq<char> {
    family_name(family) + " "@ + runtime + " backend active; requested provider "@
        + native_provider_name(provider) + "; "@ + decimal(poses) + " pose(s) and "@ + decimal(
        objects,
    ) + " person object(s) produced; "@ + scan
}

/// Reports which backend ran, for which requested provider, and what it found.
pub fn backend_status(
    family: ModelFamily,
    runtime: &str,
    provider: NativeInferenceProvider,
    poses: usize,
    objects: usize,
    scan: &str,
) -> (status: String)
    ensures
        status@ == backend_status_text(family, runtime@, provider, poses as nat, objects as nat, scan@),
{
    let mut status = String::new();
    push_str(&mut status, family_str(family));
    push_str(&mut status, " ");
    push_str(&mut status, runtime);
    push_str(&mut status, " backend active; requested provider ");
    push_str(&mut status, provider.as_str());
    push_str(&mut status, "; ");
    push_decimal(&mut status, poses as u128);
    push_str(&mut status, " pose(s) and ");
    push_decimal(&mut status, objects as u128);
    push_str(&mut status, " person object(s) produced; ");
    push_str(&mut status, scan);
    status
}

/// A list of sizes written as Rust's debug format writes it: `[1, 84, 8400]`.
pub open spec fn dims_text(dims: Seq<usize>) -> Seq<char> {
    "["@ + dims_items(dims) + "]"@
}

/// The sizes separated by a comma and a space.
pub open spec fn dims_items(dims: Seq<usize>) -> Seq<char>
    decreases dims.len(),
{
    if dims.len() == 0 {
        Seq::empty()
    } else if dims.len() == 1 {
        decimal(dims[0] as nat)
    } else {
        dims_items(dims.drop_last()) + ", "@ + decimal(dims.last() as nat)
    }
}

/// The message of a YOLOv8 layout error for an output of this shape and value count.
pub open spec fn yolo_layout_error_text(
    error: YoloLayoutError,
    shape: Seq<usize>,
    values_len: nat,
) -> Seq<char> {
    match error {
        YoloLayoutError::EmptyOutput => "YOLOv8 output is empty"@,
        YoloLayoutError::UnrecognizedShape => "YOLOv8 output has shape "@ + dims_text(shape)
            + " and "@ + decimal(values_len)
            + " values; expected 84-channel detect or 56-channel pose output"@,
    }
}

/// Explains why a YOLOv8 output could not be laid out.
pub fn yolo_layout_error_message(error: YoloLayoutError, shape: &[usize], values_len: usize) -> (message:
    String)
    ensures
        message@ == yolo_layout_error_text(error, shape@, values_len as nat),
{
    let mut message = String::new();
    match error {
        YoloLayoutError::EmptyOutput => {
            push_str(&mut message, "YOLOv8 output is empty");
        },
        YoloLayoutError::UnrecognizedShape => {
            push_str(&mut message, "YOLOv8 output has shape ");
            push_str(&mut message, "[");
            let mut i: usize = 0;
            while i < shape.len()
                invariant
                    i <= shape@.len(),
                    message@ == "YOLOv8 output has shape "@ + "["@ + dims_items(shape@.subrange(0, i as int)),
                decreases shape.len() - i,
            {
                assert(shape@.subrange(0, i + 1).drop_last() =~= shape@.subrange(0, i as int));
                if i > 0 {
                    push_str(&mut message, ", ");
                }
                push_decimal(&mut message, shape[i] as u128);
                proof {
                    if i == 0 {
                        assert(dims_items(shape@.subrange(0, 0)) =~= Seq::<char>::empty());
                    }
                }
                i = i + 1;
            }
            assert(shape@.subrange(0, shape@.len() as int) =~= shape@);
            push_str(&mut message, "]");
            push_str(&mut message, " and ");
            push_decimal(&mut message, values_len as u128);
            push_str(&mut message, " values; expected 84-channel detect or 56-channel pose output");
            assert(message@ =~= yolo_layout_error_text(error, shape@, values_len as nat));
        },
    }
    message
}

/// Values in a MoveNet output: 17 keypoints of (y, x, score).
pub const MOVENET_OUTPUT_VALUES: usize = 51;

/// Checks that a MoveNet output holds at least the 51 keypoint values.
pub fn check_movenet_output_len(values_len: usize) -> (checked: Result<(), InferenceError>)
    ensures
        values_len >= 51 <==> checked is Ok,
        checked matches Err(e) ==> e matches InferenceError::InvalidMoveNetOutput(m) && m@
            == "MoveNet output has "@ + decimal(values_len as nat) + " values, expected at least 51"@,
{
    if values_len >= MOVENET_OUTPUT_VALUES {
        Ok(())
    } else {
        let mut message = String::new();
        push_str(&mut message, "MoveNet output has ");
        push_decimal(&mut message, values_len as u128);
        push_str(&mut message, " values, expected at least 51");
        Err(InferenceError::InvalidMoveNetOutput(message))
    }
}

/// Whether a model file name marks a YOLO model ("yolo" anywhere, any ASCII case).
pub fn is_yolo_model_name(file_name: &str) -> (yolo: bool)
    ensures
        yolo == contains_seq(ascii_lower(file_name@), "yolo"@),
{
    let lower = to_ascii_lowercase(file_name);
    str_contains(lower.as_str(), "yolo")
}

/// Whether a path's extension (if it has one) is `wanted`, ignoring ASCII case.
pub fn has_extension(extension: Option<&str>, wanted: &str) -> (matches: bool)
    ensures
        matches == match extension {
            Some(e) => ascii_lower(e@) == ascii_lower(wanted@),
            None => false,
        },
{
    match extension {
        Some(e) => eq_ignore_ascii_case(e, wanted),
        None => false,
    }
}

/// Bundled YOLOv8-pose ONNX model.
pub const BUNDLED_YOLOV8_POSE_ONNX_MODEL: &'static str = "models/yolov8n-pose.onnx";

/// Bundled YOLOv8 detection ONNX model.
pub const BUNDLED_YOLOV8_ONNX_MODEL: &'static str = "models/yolov8n.onnx";

/// Bundled MoveNet Lightning ONNX model.
pub const BUNDLED_MOVENET_ONNX_MODEL: &'static str = "models/movenet_lightning.onnx";

/// Bundled MoveNet Lightning TFLite model.
pub const BUNDLED_MOVENET_TFLITE_MODEL: &'static str = "models/movenet_lightning.tflite";

/// The bundled models to look for, best first: the YOLOv8 then MoveNet ONNX models
/// for ONNX Runtime providers, the MoveNet TFLite then ONNX model otherwise.
pub open spec fn bundled_candidates(prefer_onnx: bool) -> Seq<Seq<char>> {
    if prefer_onnx {
        seq![
            "models/yolov8n-pose.onnx"@,
            "models/yolov8n.onnx"@,
            "models/movenet_lightning.onnx"@,
            "models/movenet_lightning.tflite"@,
        ]
    } else {
        seq!["models/movenet_lightning.tflite"@, "models/movenet_lightning.onnx"@]
    }
}

/// The bundled model paths to try when none is configured, in order of preference.
pub fn bundled_model_candidates(prefer_onnx: bool) -> (candidates: Vec<&'static str>)
    ensures
        candidates@.len() == bundled_candidates(prefer_onnx).len(),
        forall|i: int|
            0 <= i < candidates@.len() ==> #[trigger] candidates@[i]@ == bundled_candidates(
                prefer_onnx,
            )[i],
{
    let mut candidates: Vec<&'static str> = Vec::new();
    if prefer_onnx {
        candidates.push(BUNDLED_YOLOV8_POSE_ONNX_MODEL);
        candidates.push(BUNDLED_YOLOV8_ONNX_MODEL);
        candidates.push(BUNDLED_MOVENET_ONNX_MODEL);
        candidates.push(BUNDLED_MOVENET_TFLITE_MODEL);
    } else {
        candidates.push(BUNDLED_MOVENET_TFLITE_MODEL);
        candidates.push(BUNDLED_MOVENET_ONNX_MODEL);
    }
    candidates
}

/// A configured model path with surrounding white space removed, unless nothing is left.
pub fn explicit_model_path(model_path: &Option<String>) -> (path: Option<&str>)
    ensures
        match model_path {
            Some(p) => if trimmed(p@).len() == 0 {
                path is None
            } else {
                path matches Some(t) && t@ == trimmed(p@)
            },
            None => path is None,
        },
{
    match model_path {
        Some(p) => {
            let t = trim(p.as_str());
            if t.unicode_len() == 0 {
                None
            } else {
                Some(t)
            }
        },
        None => None,
    }
}

} // verus!
