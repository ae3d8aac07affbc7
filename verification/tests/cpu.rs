//! Sets of vector instructions.

use sakura_core::cpu::{detect_at_startup, CpuFeatures, UnsupportedCpu};

#[test]
fn the_compatibility_floor_requires_both_avx_and_ssse3() {
    assert!(
        !CpuFeatures::from_detected(true, false, false, false, false, false)
            .supports(CpuFeatures::avx_ssse3_set())
    );
    assert!(
        !CpuFeatures::from_detected(false, true, false, false, false, false)
            .supports(CpuFeatures::avx_ssse3_set())
    );
    assert!(
        CpuFeatures::from_detected(true, true, false, false, false, false)
            .supports(CpuFeatures::avx_ssse3_set())
    );
}

#[test]
fn avx512_bw_vl_is_a_feature_set_not_a_tier() {
    let bw_without_vl = CpuFeatures::from_detected(true, true, true, true, true, false);
    let bw_with_vl = CpuFeatures::from_detected(true, true, true, true, true, true);
    assert!(!bw_without_vl.supports(CpuFeatures::avx512_bw_vl_set()));
    assert!(bw_with_vl.supports(CpuFeatures::avx512_bw_vl_set()));
}

#[test]
fn a_machine_that_can_run_this_test_meets_the_compatibility_floor() {
    let features = detect_at_startup(true, true, true, false, false, false, false)
        .expect("a machine at the floor");
    assert!(features.avx());
    assert!(features.ssse3());
}

#[test]
fn the_unsupported_message_names_every_baseline_requirement() {
    let text = UnsupportedCpu.message();
    assert!(text.contains("AVX"), "unhelpful message: {text}");
    assert!(text.contains("SSSE3"), "unhelpful message: {text}");
}

#[test]
fn a_machine_below_the_floor_is_refused() {
    assert_eq!(
        detect_at_startup(true, true, false, true, true, true, true),
        Err(UnsupportedCpu)
    );
    assert_eq!(
        detect_at_startup(true, false, true, true, true, true, true),
        Err(UnsupportedCpu)
    );
    assert_eq!(
        detect_at_startup(false, true, true, true, true, true, true),
        Ok(CpuFeatures::empty())
    );
}

#[test]
fn every_feature_is_its_own() {
    for index in 0..6 {
        let has = |wanted: i32| index == wanted;
        let features = CpuFeatures::from_detected(has(0), has(1), has(2), has(3), has(4), has(5));
        assert_eq!(features.avx(), index == 0);
        assert_eq!(features.ssse3(), index == 1);
        assert_eq!(features.avx2(), index == 2);
        assert_eq!(features.avx512f(), index == 3);
        assert_eq!(features.avx512bw(), index == 4);
        assert_eq!(features.avx512vl(), index == 5);
        assert!(features.supports(CpuFeatures::empty()));
    }
}

#[test]
fn wider_scans_need_what_narrower_ones_need() {
    assert!(CpuFeatures::avx512_bw_vl_set().supports(CpuFeatures::avx2_set()));
    assert!(CpuFeatures::avx2_set().supports(CpuFeatures::avx_ssse3_set()));
    assert!(!CpuFeatures::avx_ssse3_set().supports(CpuFeatures::avx2_set()));
}
