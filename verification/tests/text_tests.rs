use lalalm::downloads::sanitize;
use lalalm::gguf::quant_rank;
use lalalm::gpu::gpu_name_is_virtual;

#[test]
fn unicode_aware_helpers() {
    // Lower-casing reaches non-ASCII letters before the marker search.
    assert!(gpu_name_is_virtual("VMWARE SVGA 3D"));
    assert!(gpu_name_is_virtual("Microsoft Basic Display Adapter"));
    assert!(!gpu_name_is_virtual("NVIDIA GeForce RTX 4090"));
    // Upper-casing before ranking.
    assert_eq!(quant_rank("q4_k_m"), quant_rank("Q4_K_M"));
    assert_eq!(quant_rank("unknown"), 500);
    // Unicode letters and digits survive sanitizing; separators do not.
    assert_eq!(sanitize("模型/v1:ä"), "模型_v1_ä");
}
