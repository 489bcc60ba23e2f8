use color_balance::cluster::RawCluster;
use color_balance::color::{lab_dist2, srgb_to_lab, LabColor};
use color_balance::hex::hex_color;
use color_balance::merge::merge_clusters;
use color_balance::{analyze_60_30_10_rule, analyze_image_in_memory, AnalysisError, ColorData};

fn png_bytes(width: u32, height: u32, pixel: impl Fn(u32, u32) -> [u8; 4]) -> Vec<u8> {
    let img = image::RgbaImage::from_fn(width, height, |x, y| image::Rgba(pixel(x, y)));
    let mut buf = std::io::Cursor::new(Vec::new());
    image::DynamicImage::ImageRgba8(img)
        .write_to(&mut buf, image::ImageFormat::Png)
        .unwrap();
    buf.into_inner()
}

#[test]
fn hex_rendering_is_uppercase_rgb() {
    assert_eq!(hex_color(255, 0, 0), "#FF0000".to_string());
    assert_eq!(hex_color(0, 0, 0), "#000000".to_string());
    assert_eq!(hex_color(1, 15, 160), "#010FA0".to_string());
    assert_eq!(hex_color(171, 205, 239), "#ABCDEF".to_string());
}

#[test]
fn perceptual_conversion_orders_colors_sensibly() {
    let red = srgb_to_lab(255, 0, 0);
    let dark_red = srgb_to_lab(200, 0, 0);
    let blue = srgb_to_lab(0, 0, 255);
    let white = srgb_to_lab(255, 255, 255);
    let black = srgb_to_lab(0, 0, 0);
    // Lightness endpoints: black at zero, white at the top of the scale.
    assert_eq!(black.l, 0);
    assert_eq!(white.l, 116 * 255 - 4080);
    // Two reds sit closer together than red and blue.
    assert!(lab_dist2(&red, &dark_red) < lab_dist2(&red, &blue));
    // The distance is symmetric and zero on equal inputs.
    assert_eq!(lab_dist2(&red, &blue), lab_dist2(&blue, &red));
    assert_eq!(lab_dist2(&red, &red), 0);
}

fn raw(l: i32, a: i32, b: i32, count: u64) -> RawCluster {
    RawCluster {
        lab: LabColor { l, a, b },
        red: 100,
        green: 100,
        blue: 100,
        count,
    }
}

#[test]
fn merger_collapses_close_pair_and_preserves_weight() {
    // Two near-identical colors and one far color, generous threshold.
    let input = vec![raw(10000, 500, 500, 30), raw(10100, 520, 520, 10), raw(200, -9000, 4000, 20)];
    let (merged, remap) = merge_clusters(input, 20);
    assert_eq!(merged.len(), 2);
    let total: u64 = merged.iter().map(|c| c.count).sum();
    assert_eq!(total, 60);
    assert_eq!(remap.len(), 3);
    for &t in &remap {
        assert!(t < merged.len());
    }
    // The absorbed pair's entry carries the weighted mean and summed count,
    // and the list comes back ordered by falling weight.
    assert!(merged[0].count >= merged[1].count);
    assert_eq!(merged[0].count, 40);
    assert_eq!(merged[0].lab.l, (10000 * 30 + 10100 * 10) / 40);
    assert_eq!(merged[0].lab.a, (500 * 30 + 520 * 10) / 40);
    assert_eq!(merged[0].lab.b, ((500 + 51000) * 30 + (520 + 51000) * 10) / 40 - 51000);
    assert_eq!(
        (merged[0].red, merged[0].green, merged[0].blue),
        (100, 100, 100)
    );
}

#[test]
fn merger_keeps_distant_clusters_apart() {
    let input = vec![raw(20000, 10000, 0, 5), raw(2000, -10000, 0, 7)];
    let (merged, _) = merge_clusters(input, 10);
    assert_eq!(merged.len(), 2);
    assert_eq!(merged[0].count, 7);
    assert_eq!(merged[1].count, 5);
}

fn cd(hex: &str, percentage: u32) -> ColorData {
    ColorData {
        hex: hex.to_string(),
        percentage,
    }
}

#[test]
fn balanced_palette_passes_the_rule() {
    let palette = vec![cd("#AA0000", 600_000), cd("#00AA00", 300_000), cd("#0000AA", 100_000)];
    let a = analyze_60_30_10_rule(&palette).unwrap();
    assert!(a.is_balanced);
    assert_eq!(a.summary, "Well Balanced".to_string());
    assert_eq!(a.dominant_hex, "#AA0000".to_string());
    assert_eq!(a.dominant_percentage, 600_000);
    assert_eq!(a.secondary_hex, "#00AA00".to_string());
    assert_eq!(a.accent_hex, "#0000AA".to_string());
}

#[test]
fn lopsided_palette_fails_the_rule() {
    let palette = vec![cd("#AA0000", 900_000), cd("#00AA00", 80_000), cd("#0000AA", 20_000)];
    let a = analyze_60_30_10_rule(&palette).unwrap();
    assert!(!a.is_balanced);
    assert_eq!(a.summary, "Unconventional Balance".to_string());
}

#[test]
fn rule_requires_three_colors() {
    let palette = vec![cd("#AA0000", 700_000), cd("#00AA00", 300_000)];
    let err = analyze_60_30_10_rule(&palette).unwrap_err();
    assert_eq!(err, "Palette must contain at least 3 colors.".to_string());
}

#[test]
fn in_memory_analysis_reports_sorted_shares() {
    let bytes = png_bytes(8, 8, |x, _| {
        if x < 6 {
            [250, 10, 10, 255]
        } else {
            [10, 10, 250, 255]
        }
    });
    let colors = analyze_image_in_memory(&bytes).unwrap();
    assert!(!colors.is_empty());
    assert!(colors.len() <= 5);
    for w in colors.windows(2) {
        assert!(w[0].percentage >= w[1].percentage);
    }
    let sum: u64 = colors.iter().map(|c| c.percentage as u64).sum();
    assert!(sum <= 1_000_000);
    for c in &colors {
        assert_eq!(c.hex.len(), 7);
        assert!(c.hex.starts_with('#'));
    }
}

#[test]
fn in_memory_analysis_rejects_garbage() {
    let garbage = vec![9u8; 16];
    assert!(matches!(
        analyze_image_in_memory(&garbage),
        Err(AnalysisError::Decode)
    ));
}

#[test]
fn quantizer_concentrates_many_colors_onto_few() {
    // 1024 pixels, all of distinct colors. The learned palette holds at
    // most 256 entries, so by pigeonhole the heaviest quantized color owns
    // at least four pixels (at least 0.39%); unquantized counting would
    // leave every color at a single pixel (under 0.1%).
    let bytes = png_bytes(32, 32, |x, y| {
        let i = y * 32 + x;
        [(i / 4) as u8, (i % 256) as u8, ((i * 7) % 256) as u8, 255]
    });
    let colors = analyze_image_in_memory(&bytes).unwrap();
    assert!(colors[0].percentage >= 2_000, "top share {}", colors[0].percentage);
}
