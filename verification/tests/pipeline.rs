use gauzilla::half::float_to_half;
use gauzilla::scene::Scene;
use gauzilla::sorter::Sorter;
use gauzilla::splat::{Quantized, SerializedSplat};

const SH_C0: f32 = 0.28209479177387814;

fn sigmoid(x: f32) -> f32 {
    1.0 / (1.0 + (-x).exp())
}

fn record_bytes(position: [f32; 3], log_scale: [f32; 3], rotation: [f32; 4], alpha: f32, color: [f32; 3]) -> Vec<u8> {
    let mut fields: Vec<f32> = Vec::new();
    fields.extend_from_slice(&position);
    fields.extend_from_slice(&[0.0; 3]);
    fields.extend_from_slice(&color);
    fields.extend_from_slice(&[0.0; 45]);
    fields.push(alpha);
    fields.extend_from_slice(&log_scale);
    fields.extend_from_slice(&rotation);
    fields.iter().flat_map(|f| f.to_le_bytes()).collect()
}

fn quantize(s: &SerializedSplat) -> Quantized {
    let scale = s.scale.map(f32::from_bits);
    let rotation = s.rotation.map(f32::from_bits);
    let alpha = f32::from_bits(s.alpha);
    let qlen = rotation.iter().map(|r| r * r).sum::<f32>().sqrt();
    let importance = scale[0].exp() * scale[1].exp() * scale[2].exp() * sigmoid(alpha);
    Quantized {
        scale: scale.map(|x| x.exp().to_bits()),
        color: [
            ((0.5 + SH_C0 * f32::from_bits(s.color[0])) * 255.0) as u8,
            ((0.5 + SH_C0 * f32::from_bits(s.color[1])) * 255.0) as u8,
            ((0.5 + SH_C0 * f32::from_bits(s.color[2])) * 255.0) as u8,
            (sigmoid(alpha) * 255.0) as u8,
        ],
        rotation: rotation.map(|r| (((r / qlen) + 1.0) * 0.5 * 255.0) as u8),
        importance: if importance > 0.0 { importance.to_bits() } else { 0 },
    }
}

fn file() -> Vec<u8> {
    let mut bytes = b"ply\nformat binary_little_endian 1.0\nelement vertex 3\nend_header\n".to_vec();
    // small and faint, large and opaque, middling
    bytes.extend(record_bytes([0.0, 0.0, 1.0], [-3.0; 3], [1.0, 0.0, 0.0, 0.0], -2.0, [0.0; 3]));
    bytes.extend(record_bytes([0.0, 0.0, 3.0], [0.5; 3], [0.0, 2.0, 0.0, 0.0], 4.0, [1.0, -1.0, 0.5]));
    bytes.extend(record_bytes([0.0, 0.0, 2.0], [-1.0; 3], [1.0, 1.0, 1.0, 1.0], 0.0, [0.0; 3]));
    bytes
}

fn loaded() -> Scene {
    let bytes = file();
    let (offset, count) = Scene::parse_file_header(&bytes).unwrap();
    let splats = SerializedSplat::decode_all(&bytes, offset, count).unwrap();
    let prepared: Vec<(SerializedSplat, Quantized)> =
        splats.into_iter().map(|s| (s, quantize(&s))).collect();
    let mut scene = Scene::new();
    scene.load(&prepared);
    scene
}

#[test]
fn store_holds_as_many_records_as_the_header_declares() {
    let scene = loaded();
    assert_eq!(scene.splat_count(), 3);
    assert_eq!(scene.buffer().len(), 32 * 3);
}

#[test]
fn records_are_written_by_descending_importance() {
    let scene = loaded();
    let depth_of = |row: usize| f32::from_bits(scene.splat(row).unwrap().position[2]);
    assert_eq!(depth_of(0), 3.0);
    assert_eq!(depth_of(1), 2.0);
    assert_eq!(depth_of(2), 1.0);
    let first = scene.splat(0).unwrap();
    assert_eq!(f32::from_bits(first.scale[0]), 0.5f32.exp());
    assert_eq!(first.rotation, [127, 255, 127, 127]);
    assert_eq!(first.color[1], ((0.5 - SH_C0) * 255.0) as u8);
    assert_eq!(first.color[3], (sigmoid(4.0) * 255.0) as u8);
}

#[test]
fn texture_holds_position_color_and_covariance() {
    let mut scene = loaded();
    let covariance: Vec<[u32; 6]> = (0..3)
        .map(|row| {
            let s = f32::from_bits(scene.splat(row).unwrap().scale[0]);
            let d = (4.0 * s * s).to_bits();
            [d, 0, 0, d, 0, d]
        })
        .collect();
    assert!(scene.generate_texture(&covariance));
    let tex = scene.tex_data();
    for row in 0..3 {
        let splat = scene.splat(row).unwrap();
        assert_eq!(&tex[8 * row..8 * row + 3], &splat.position);
        assert_eq!(tex[8 * row + 3], u32::from_le_bytes(splat.color));
        let d = float_to_half(covariance[row][0]) as u32;
        assert_eq!(tex[8 * row + 4], d);
        assert_eq!(tex[8 * row + 5], d << 16);
        assert_eq!(tex[8 * row + 6], d << 16);
        assert_eq!(tex[8 * row + 7], 0);
    }
}

#[test]
fn draw_order_is_back_to_front() {
    let scene = loaded();
    let forward = [0.0f32, 0.0, 1.0];
    let depths: Vec<i32> = (0..scene.splat_count())
        .map(|row| {
            let p = scene.splat(row).unwrap().position.map(f32::from_bits);
            ((forward[0] * p[0] + forward[1] * p[1] + forward[2] * p[2]) * 4096.0) as i32
        })
        .collect();
    assert_eq!(depths, vec![12288, 8192, 4096]);
    let mut sorter = Sorter::new();
    assert!(sorter.receive(scene.splat_count(), forward.map(f32::to_bits), false));
    assert_eq!(Scene::sort2(&scene, &mut sorter, &depths), Some(vec![0, 1, 2]));
    let back: Vec<i32> = depths.iter().map(|d| -d).collect();
    assert!(sorter.receive(scene.splat_count(), [0, 0, (-1.0f32).to_bits()], false));
    assert_eq!(Scene::sort2(&scene, &mut sorter, &back), Some(vec![2, 1, 0]));
}
