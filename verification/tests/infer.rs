use autoaim::infer::{
    backend_status, check_movenet_output_len, scan_status, yolo_layout_error_message, ModelFamily,
    bundled_model_candidates, explicit_model_path, has_extension, is_yolo_model_name,
    BUNDLED_MOVENET_TFLITE_MODEL,
};
use autoaim::components::collect_component_bounds;
use autoaim::infer::{
    is_ort_provider, movenet_input_size, normalize_model_path, visual_detector_status,
    yolo_output_layout, yolo_value_index, InferenceError, NativeInferenceProvider,
    YoloLayoutError, YoloV8OutputKind, MOVENET_LIGHTNING_INPUT_SIZE, MOVENET_THUNDER_INPUT_SIZE,
    YOLOV8_DETECT_OUTPUT_CHANNELS, YOLOV8_POSE_OUTPUT_CHANNELS,
};
use autoaim::visual::{
    active_edge_cells, local_edge_score, pixel_brightness, pixel_rgb, rgb_distance,
};

#[test]
fn provider_names_parse_and_format_all_supported_backends() {
    assert_eq!(
        NativeInferenceProvider::default(),
        NativeInferenceProvider::Cpu
    );
    assert_eq!(
        NativeInferenceProvider::from_name("cpu"),
        Some(NativeInferenceProvider::Cpu)
    );
    assert_eq!(
        NativeInferenceProvider::from_name("CUDA"),
        Some(NativeInferenceProvider::Cuda)
    );
    assert_eq!(
        NativeInferenceProvider::from_name("tensor-rt"),
        Some(NativeInferenceProvider::TensorRt)
    );
    assert_eq!(
        NativeInferenceProvider::from_name("direct_ml"),
        Some(NativeInferenceProvider::DirectMl)
    );
    assert_eq!(NativeInferenceProvider::from_name("unknown"), None);
    assert_eq!(NativeInferenceProvider::Cpu.as_str(), "cpu");
    assert_eq!(NativeInferenceProvider::Cuda.as_str(), "cuda");
    assert_eq!(NativeInferenceProvider::TensorRt.as_str(), "tensorrt");
    assert_eq!(NativeInferenceProvider::DirectMl.as_str(), "directml");
}

#[test]
fn provider_names_round_trip_and_ort_selection() {
    for provider in [
        NativeInferenceProvider::Cpu,
        NativeInferenceProvider::Cuda,
        NativeInferenceProvider::TensorRt,
        NativeInferenceProvider::DirectMl,
    ] {
        assert_eq!(NativeInferenceProvider::from_name(provider.as_str()), Some(provider));
        assert_eq!(is_ort_provider(provider), provider != NativeInferenceProvider::Cpu);
    }
    assert_eq!(
        NativeInferenceProvider::from_name("Direct-ML"),
        Some(NativeInferenceProvider::DirectMl)
    );
    assert_eq!(
        NativeInferenceProvider::from_name("TENSOR_RT"),
        Some(NativeInferenceProvider::TensorRt)
    );
    assert_eq!(NativeInferenceProvider::from_name(" cpu"), None);
    assert_eq!(NativeInferenceProvider::from_name(""), None);
}

#[test]
fn movenet_size_follows_model_name() {
    assert_eq!(
        movenet_input_size(&Some("models/movenet_lightning.onnx".to_string())),
        MOVENET_LIGHTNING_INPUT_SIZE
    );
    assert_eq!(
        movenet_input_size(&Some("models/movenet_thunder.onnx".to_string())),
        MOVENET_THUNDER_INPUT_SIZE
    );
    assert_eq!(
        movenet_input_size(&Some("models/MoveNet_THUNDER.tflite".to_string())),
        MOVENET_THUNDER_INPUT_SIZE
    );
    assert_eq!(movenet_input_size(&None), MOVENET_LIGHTNING_INPUT_SIZE);
}

#[test]
fn blank_model_paths_are_dropped() {
    assert_eq!(normalize_model_path(Some("".to_string())), None);
    assert_eq!(normalize_model_path(Some(" \t\n".to_string())), None);
    assert_eq!(normalize_model_path(None), None);
    assert_eq!(
        normalize_model_path(Some(" models/a.onnx ".to_string())),
        Some(" models/a.onnx ".to_string())
    );
}

#[test]
fn inference_error_display_is_specific() {
    assert_eq!(
        InferenceError::InvalidFrame("bad frame").message(),
        "bad frame"
    );
    assert_eq!(
        InferenceError::InvalidMoveNetOutput("bad output".to_string()).message(),
        "bad output"
    );
    assert!(InferenceError::ModelLoad("x".to_string())
        .message()
        .contains("failed to load MoveNet"));
    assert!(InferenceError::ModelRun("x".to_string())
        .message()
        .contains("failed to run MoveNet"));
}

#[test]
fn visual_status_mentions_configuration() {
    assert_eq!(
        visual_detector_status(NativeInferenceProvider::Cuda, true, 3),
        "cuda model configured but MoveNet backend is unavailable; visual detector produced 3 person candidate(s)"
    );
    assert_eq!(
        visual_detector_status(NativeInferenceProvider::Cpu, false, 0),
        "native Windows frame capture is active; no model file configured, visual detector produced 0 person candidate(s)"
    );
}

#[test]
fn yolo_layout_reads_shape_and_falls_back_to_value_count() {
    let detect = yolo_output_layout(&[1, YOLOV8_DETECT_OUTPUT_CHANNELS, 2], 168).unwrap();
    assert_eq!(detect.kind, YoloV8OutputKind::Detect);
    assert_eq!(detect.channels, 84);
    assert_eq!(detect.anchors, 2);
    assert!(detect.channels_first);

    let pose = yolo_output_layout(&[1, YOLOV8_POSE_OUTPUT_CHANNELS, 1], 56).unwrap();
    assert_eq!(pose.kind, YoloV8OutputKind::Pose);
    assert_eq!(pose.anchors, 1);

    let transposed = yolo_output_layout(&[1, 8400, 84], 8400 * 84).unwrap();
    assert_eq!(transposed.kind, YoloV8OutputKind::Detect);
    assert_eq!(transposed.anchors, 8400);
    assert!(!transposed.channels_first);

    let by_count = yolo_output_layout(&[], 84 * 3).unwrap();
    assert_eq!(by_count.kind, YoloV8OutputKind::Detect);
    assert_eq!(by_count.anchors, 3);

    assert_eq!(yolo_output_layout(&[1, 84, 2], 0), Err(YoloLayoutError::EmptyOutput));
    assert_eq!(yolo_output_layout(&[1, 10, 10], 100), Err(YoloLayoutError::UnrecognizedShape));
    // 84 * 56 * 2 is a multiple of both heads: ambiguous without a fitting shape.
    assert_eq!(
        yolo_output_layout(&[9408], 9408),
        Err(YoloLayoutError::UnrecognizedShape)
    );
}

#[test]
fn yolo_value_index_follows_layout() {
    let layout = yolo_output_layout(&[1, 84, 2], 168).unwrap();
    assert_eq!(yolo_value_index(layout, 0, 1), 1);
    assert_eq!(yolo_value_index(layout, 4, 0), 8);
    let transposed = yolo_output_layout(&[1, 2, 84], 168).unwrap();
    assert_eq!(yolo_value_index(transposed, 4, 1), 88);
}

#[test]
fn component_collection_groups_connected_cells() {
    let active = vec![
        true, true, false, false, false, true, false, true, false, false, false, true,
    ];
    let components = collect_component_bounds(&active, 4, 3);

    assert_eq!(components.len(), 2);
    assert!(components.iter().any(|component| component.cells == 3));
    assert!(components.iter().any(|component| component.cells == 2));
}

#[test]
fn component_bounds_are_in_seed_order_with_extents() {
    let active = vec![
        true, true, false, false, false, true, false, true, false, false, false, true,
    ];
    let components = collect_component_bounds(&active, 4, 3);
    assert_eq!((components[0].min_x, components[0].min_y), (0, 0));
    assert_eq!((components[0].max_x, components[0].max_y), (1, 1));
    assert_eq!(components[0].cells, 3);
    assert_eq!((components[1].min_x, components[1].min_y), (3, 1));
    assert_eq!((components[1].max_x, components[1].max_y), (3, 2));
    assert_eq!(components[1].cells, 2);
    assert!(collect_component_bounds(&[false; 6], 3, 2).is_empty());
    assert!(collect_component_bounds(&[], 0, 5).is_empty());
}

#[test]
fn local_edge_score_and_brightness_cover_boundaries() {
    let rgba = vec![0, 0, 0, 255, 255, 0, 0, 255, 0, 255, 0, 255, 0, 0, 255, 255];

    assert_eq!(local_edge_score(&rgba, 2, 2, 1, 1), 0);
    assert!(local_edge_score(&rgba, 2, 2, 0, 0) > 0);
    assert!(pixel_brightness(&rgba, 2, 1, 0) > 40);
    assert_eq!(rgb_distance([0, 0, 0], [1, 2, 3]), 6);
}

#[test]
fn pixel_measures_have_exact_values() {
    let rgba = vec![0, 0, 0, 255, 255, 0, 0, 255, 0, 255, 0, 255, 0, 0, 255, 255];
    assert_eq!(pixel_rgb(&rgba, 2, 1, 1), [0, 0, 255]);
    assert_eq!(local_edge_score(&rgba, 2, 2, 0, 0), 255);
    assert_eq!(pixel_brightness(&rgba, 2, 1, 0), 76);
    assert_eq!(pixel_brightness(&rgba, 2, 0, 1), 150);
    assert_eq!(rgb_distance([10, 200, 30], [20, 100, 30]), 110);
}

#[test]
fn edge_cells_mark_textured_regions() {
    // A 24 x 12 frame: the left cell is a checkerboard, the right cell is flat grey.
    let width = 24usize;
    let height = 12usize;
    let mut rgba = vec![128u8; width * height * 4];
    for y in 0..height {
        for x in 0..12 {
            let value = if (x + y) % 2 == 0 { 230 } else { 55 };
            let i = (y * width + x) * 4;
            rgba[i] = value;
            rgba[i + 1] = value;
            rgba[i + 2] = value;
        }
    }
    let cells = active_edge_cells(&rgba, width as u32, height as u32).unwrap();
    assert_eq!(cells, vec![true, false]);
    assert!(active_edge_cells(&rgba[..8], width as u32, height as u32).is_none());
    assert!(active_edge_cells(&[], 0, 0).is_none());
}

#[test]
fn model_file_names_and_extensions() {
    assert!(is_yolo_model_name("YOLOv8n-pose.onnx"));
    assert!(is_yolo_model_name("my_yolo.onnx"));
    assert!(!is_yolo_model_name("movenet_lightning.onnx"));
    assert!(has_extension(Some("ONNX"), "onnx"));
    assert!(has_extension(Some("tflite"), "tflite"));
    assert!(!has_extension(Some("onnx"), "tflite"));
    assert!(!has_extension(None, "onnx"));
}

#[test]
fn bundled_models_are_tried_in_provider_order() {
    assert_eq!(
        bundled_model_candidates(true),
        vec![
            "models/yolov8n-pose.onnx",
            "models/yolov8n.onnx",
            "models/movenet_lightning.onnx",
            "models/movenet_lightning.tflite",
        ]
    );
    assert_eq!(
        bundled_model_candidates(false),
        vec![BUNDLED_MOVENET_TFLITE_MODEL, "models/movenet_lightning.onnx"]
    );
}

#[test]
fn explicit_model_path_is_trimmed_and_blank_is_absent() {
    assert_eq!(
        explicit_model_path(&Some("  models/custom.onnx \n".to_string())),
        Some("models/custom.onnx")
    );
    assert_eq!(explicit_model_path(&Some(" \t ".to_string())), None);
    assert_eq!(explicit_model_path(&None), None);
}

#[test]
fn detector_status_lines() {
    assert_eq!(scan_status(ModelFamily::YoloV8, 8), "scanned 8 YOLOv8 region(s)");
    assert_eq!(scan_status(ModelFamily::MoveNet, 11), "scanned 11 MoveNet region(s)");
    assert_eq!(
        backend_status(
            ModelFamily::MoveNet,
            "custom pose model",
            NativeInferenceProvider::Cpu,
            1,
            1,
            "scanned 1 MoveNet region(s)"
        ),
        "MoveNet custom pose model backend active; requested provider cpu; 1 pose(s) and 1 person object(s) produced; scanned 1 MoveNet region(s)"
    );
}

#[test]
fn output_errors_name_the_shape_and_count() {
    assert_eq!(
        yolo_layout_error_message(YoloLayoutError::UnrecognizedShape, &[1, 7, 9], 63),
        "YOLOv8 output has shape [1, 7, 9] and 63 values; expected 84-channel detect or 56-channel pose output"
    );
    assert_eq!(
        yolo_layout_error_message(YoloLayoutError::UnrecognizedShape, &[], 5),
        "YOLOv8 output has shape [] and 5 values; expected 84-channel detect or 56-channel pose output"
    );
    assert_eq!(
        yolo_layout_error_message(YoloLayoutError::EmptyOutput, &[1, 84, 0], 0),
        "YOLOv8 output is empty"
    );
    assert!(check_movenet_output_len(51).is_ok());
    assert_eq!(
        check_movenet_output_len(12).unwrap_err().message(),
        "MoveNet output has 12 values, expected at least 51"
    );
}

fn frame_with_blob(width: u32, height: u32) -> Vec<u8> {
    let mut rgba = vec![20_u8; width as usize * height as usize * 4];
    for y in height as usize / 5..height as usize * 4 / 5 {
        for x in width as usize * 2 / 5..width as usize * 3 / 5 {
            let index = (y * width as usize + x) * 4;
            let value = if (x + y) % 2 == 0 { 230 } else { 55 };
            rgba[index] = value;
            rgba[index + 1] = value;
            rgba[index + 2] = value;
            rgba[index + 3] = 255;
        }
    }
    rgba
}

#[test]
fn textured_blob_gives_one_tall_group_of_edge_cells() {
    let rgba = frame_with_blob(240, 180);
    let cells = active_edge_cells(&rgba, 240, 180).unwrap();
    assert_eq!(cells.len(), 20 * 15);
    // The blob spans columns 96..144 and rows 36..144: cells 8..=11 by 3..=11.
    for gy in 0..15 {
        for gx in 0..20 {
            let inside = (8..=11).contains(&gx) && (3..=11).contains(&gy);
            if !inside {
                assert!(!cells[gy * 20 + gx], "cell ({gx}, {gy}) should be quiet");
            }
        }
    }
    let groups = collect_component_bounds(&cells, 20, 15);
    assert_eq!(groups.len(), 1);
    let group = groups[0];
    assert!(group.max_y - group.min_y > group.max_x - group.min_x);

    let mut short = rgba.clone();
    short.truncate(3);
    assert!(active_edge_cells(&short, 240, 180).is_none());
}
