use color_balance::{
    analyze, analyze_with_events, segmentation_map_u8, visualize, AnalysisConfig, AnalysisError,
    AnalysisEvent,
};

fn png_bytes(width: u32, height: u32, pixel: impl Fn(u32, u32) -> [u8; 4]) -> Vec<u8> {
    let img = image::RgbaImage::from_fn(width, height, |x, y| image::Rgba(pixel(x, y)));
    let mut buf = std::io::Cursor::new(Vec::new());
    image::DynamicImage::ImageRgba8(img)
        .write_to(&mut buf, image::ImageFormat::Png)
        .unwrap();
    buf.into_inner()
}

fn red_png(width: u32, height: u32) -> Vec<u8> {
    png_bytes(width, height, |_, _| [255, 0, 0, 255])
}

#[test]
fn uniform_red_image_yields_single_full_cluster() {
    let bytes = red_png(2, 2);
    let cfg = AnalysisConfig::default();
    let res = analyze(&bytes, 1, None, None, &cfg).unwrap();
    assert_eq!(res.width, 2);
    assert_eq!(res.height, 2);
    assert_eq!(res.clusters.len(), 1);
    assert_eq!(res.clusters[0].hex, "#FF0000".to_string());
    assert_eq!(res.clusters[0].percentage, 1_000_000); // 100.0000%
    assert_eq!(res.segmentation_map, vec![0, 0, 0, 0]);
}

#[test]
fn red_and_blue_halves_yield_two_clusters_near_half() {
    let bytes = png_bytes(8, 8, |x, _| {
        if x < 4 {
            [255, 0, 0, 255]
        } else {
            [0, 0, 255, 255]
        }
    });
    let cfg = AnalysisConfig::default();
    let res = analyze(&bytes, 2, None, None, &cfg).unwrap();
    assert_eq!(res.clusters.len(), 2);
    let hexes: Vec<&str> = res.clusters.iter().map(|c| c.hex.as_str()).collect();
    assert!(hexes.contains(&"#FF0000"));
    assert!(hexes.contains(&"#0000FF"));
    for c in &res.clusters {
        assert!(c.percentage >= 400_000 && c.percentage <= 600_000, "share {}", c.percentage);
    }
}

#[test]
fn oversized_palette_request_degrades_gracefully() {
    // Four pixels can never support ten clusters: the count is clamped and
    // no empty cluster is reported.
    let bytes = png_bytes(2, 2, |x, y| {
        [(x * 100) as u8, (y * 100) as u8, 50, 255]
    });
    let cfg = AnalysisConfig::default();
    let res = analyze(&bytes, 10, None, None, &cfg).unwrap();
    assert!(!res.clusters.is_empty());
    assert!(res.clusters.len() <= 4);
    for c in &res.clusters {
        assert!(c.count > 0);
        assert!(c.percentage > 0);
    }
}

#[test]
fn segmentation_map_values_index_final_clusters() {
    let bytes = png_bytes(16, 16, |x, y| [(x * 16) as u8, (y * 16) as u8, 128, 255]);
    let cfg = AnalysisConfig::default();
    let res = analyze(&bytes, 4, None, None, &cfg).unwrap();
    assert_eq!(res.segmentation_map.len(), 16 * 16);
    for &id in &res.segmentation_map {
        assert!((id as usize) < res.clusters.len());
    }
}

#[test]
fn percentages_sum_to_one_hundred_within_tolerance() {
    let bytes = png_bytes(16, 16, |x, y| [(x * 16) as u8, (y * 16) as u8, 30, 255]);
    let cfg = AnalysisConfig::default();
    let res = analyze(&bytes, 5, None, None, &cfg).unwrap();
    let sum: u64 = res.clusters.iter().map(|c| c.percentage as u64).sum();
    // 1_000_000 units == 100%; the rounding deficit stays under one unit
    // per cluster, far inside a 0.1% (1000-unit) tolerance.
    assert!(sum <= 1_000_000);
    assert!(sum > 1_000_000 - 1000, "sum {}", sum);
}

#[test]
fn repeated_analysis_is_byte_identical() {
    let bytes = png_bytes(12, 9, |x, y| [(x * 20) as u8, (y * 25) as u8, 200, 255]);
    let cfg = AnalysisConfig::default();
    let a = analyze(&bytes, 3, Some(8), Some(1), &cfg).unwrap();
    let b = analyze(&bytes, 3, Some(8), Some(1), &cfg).unwrap();
    assert_eq!(a.width, b.width);
    assert_eq!(a.height, b.height);
    assert_eq!(a.segmentation_map, b.segmentation_map);
    assert_eq!(a.clusters.len(), b.clusters.len());
    for (ca, cb) in a.clusters.iter().zip(b.clusters.iter()) {
        assert_eq!(ca.hex, cb.hex);
        assert_eq!(ca.percentage, cb.percentage);
        assert_eq!(ca.count, cb.count);
    }
}

#[test]
fn streaming_emits_events_then_result_and_none_on_failure() {
    let bytes = red_png(4, 4);
    let mut cfg = AnalysisConfig::default();
    cfg.emit_intermediate = true;
    let (events, res) = analyze_with_events(&bytes, 1, None, None, &cfg).unwrap();
    assert!(events.len() >= 4);
    for ev in &events {
        match ev {
            AnalysisEvent::Status(msg) => assert!(!msg.is_empty()),
            AnalysisEvent::IntermediateImage(png) => assert!(!png.is_empty()),
        }
    }
    assert_eq!(res.clusters.len(), 1);

    let garbage = vec![1u8, 2, 3, 4];
    assert!(matches!(
        analyze_with_events(&garbage, 1, None, None, &cfg),
        Err(AnalysisError::Decode)
    ));
}

#[test]
fn palette_size_is_validated() {
    let bytes = red_png(2, 2);
    let cfg = AnalysisConfig::default();
    assert!(matches!(
        analyze(&bytes, 0, None, None, &cfg),
        Err(AnalysisError::PaletteSize)
    ));
    assert!(matches!(
        analyze(&bytes, 257, None, None, &cfg),
        Err(AnalysisError::PaletteSize)
    ));
}

#[test]
fn undecodable_bytes_fail_with_decode_error() {
    let cfg = AnalysisConfig::default();
    let garbage = vec![0u8; 32];
    assert!(matches!(
        analyze(&garbage, 3, None, None, &cfg),
        Err(AnalysisError::Decode)
    ));
}

#[test]
fn max_dimension_bounds_the_processed_image() {
    let bytes = png_bytes(40, 20, |x, _| [(x * 6) as u8, 10, 10, 255]);
    let cfg = AnalysisConfig::default();
    let res = analyze(&bytes, 2, Some(10), None, &cfg).unwrap();
    assert!(res.width <= 10);
    assert!(res.height <= 10);
    assert_eq!(res.segmentation_map.len(), (res.width * res.height) as usize);
}

#[test]
fn blur_strength_is_accepted_and_keeps_dimensions() {
    let bytes = png_bytes(6, 6, |x, y| {
        if (x + y) % 2 == 0 {
            [255, 255, 255, 255]
        } else {
            [0, 0, 0, 255]
        }
    });
    let cfg = AnalysisConfig::default();
    let res = analyze(&bytes, 2, None, Some(2), &cfg).unwrap();
    assert_eq!(res.width, 6);
    assert_eq!(res.height, 6);
}

#[test]
fn visualization_encodes_a_decodable_png_of_same_size() {
    let bytes = png_bytes(8, 4, |x, _| {
        if x < 4 {
            [255, 0, 0, 255]
        } else {
            [0, 255, 0, 255]
        }
    });
    let cfg = AnalysisConfig::default();
    let res = analyze(&bytes, 2, None, None, &cfg).unwrap();
    let png = visualize(&res).unwrap();
    let round = image::load_from_memory(&png).unwrap().to_rgba8();
    assert_eq!(round.width(), res.width);
    assert_eq!(round.height(), res.height);
    // Every rendered pixel carries one of the cluster colors.
    for px in round.pixels() {
        let hit = res
            .clusters
            .iter()
            .any(|c| c.red == px[0] && c.green == px[1] && c.blue == px[2]);
        assert!(hit);
    }
}

#[test]
fn narrowed_map_matches_the_wide_map() {
    let bytes = png_bytes(8, 8, |x, y| [(x * 30) as u8, (y * 30) as u8, 99, 255]);
    let cfg = AnalysisConfig::default();
    let res = analyze(&bytes, 3, None, None, &cfg).unwrap();
    let narrow = segmentation_map_u8(&res).unwrap();
    assert_eq!(narrow.len(), res.segmentation_map.len());
    for (a, b) in narrow.iter().zip(res.segmentation_map.iter()) {
        assert_eq!(*a as u32, *b);
    }
}

#[test]
fn stray_pixels_fold_into_surrounding_regions() {
    // A red field with a few isolated bright specks: the connectivity pass
    // folds each speck into its surrounding region, so the palette stays
    // dominated by red.
    let bytes = png_bytes(32, 32, |x, y| {
        if (x, y) == (5, 5) || (x, y) == (17, 9) || (x, y) == (26, 22) {
            [255, 255, 255, 255]
        } else {
            [200, 10, 10, 255]
        }
    });
    let cfg = AnalysisConfig::default();
    let res = analyze(&bytes, 2, None, None, &cfg).unwrap();
    assert!(!res.clusters.is_empty());
    assert!(res.clusters[0].percentage > 900_000);
    for &id in &res.segmentation_map {
        assert!((id as usize) < res.clusters.len());
    }
}
