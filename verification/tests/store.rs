use gauzilla::error::{FormatError, SceneError};
use gauzilla::half::pack_half_2x16;
use gauzilla::importance::importance_order;
use gauzilla::ply::{read_splats, read_splats_no_normal};
use gauzilla::scene::Scene;
use gauzilla::splat::{PackedSplat, Quantized, SerializedSplat, SerializedSplat2};

fn raw(seed: u32) -> SerializedSplat {
    let mut color = [0u32; 48];
    for (k, c) in color.iter_mut().enumerate() {
        *c = seed * 1000 + 500 + k as u32;
    }
    SerializedSplat {
        position: [seed * 1000 + 1, seed * 1000 + 2, seed * 1000 + 3],
        n: [seed * 1000 + 4, seed * 1000 + 5, seed * 1000 + 6],
        color,
        alpha: seed * 1000 + 7,
        scale: [seed * 1000 + 8, seed * 1000 + 9, seed * 1000 + 10],
        rotation: [seed * 1000 + 11, seed * 1000 + 12, seed * 1000 + 13, seed * 1000 + 14],
    }
}

fn raw_bytes(s: &SerializedSplat) -> Vec<u8> {
    let mut words: Vec<u32> = Vec::new();
    words.extend_from_slice(&s.position);
    words.extend_from_slice(&s.n);
    words.extend_from_slice(&s.color);
    words.push(s.alpha);
    words.extend_from_slice(&s.scale);
    words.extend_from_slice(&s.rotation);
    words.iter().flat_map(|w| w.to_le_bytes()).collect()
}

fn quantized(seed: u8, importance: u32) -> Quantized {
    Quantized {
        scale: [0x3f80_0000 + seed as u32, 0x4000_0000 + seed as u32, 0x4040_0000 + seed as u32],
        color: [seed, seed + 1, seed + 2, seed + 3],
        rotation: [seed + 4, seed + 5, seed + 6, seed + 7],
        importance,
    }
}

fn same(a: &SerializedSplat, b: &SerializedSplat) -> bool {
    a.position == b.position
        && a.n == b.n
        && a.color == b.color
        && a.alpha == b.alpha
        && a.scale == b.scale
        && a.rotation == b.rotation
}

#[test]
fn body_decodes_field_by_field() {
    let header = b"ply\nelement vertex 2\nend_header\n";
    let records = [raw(1), raw(2)];
    let mut bytes = header.to_vec();
    bytes.extend(raw_bytes(&records[0]));
    bytes.extend(raw_bytes(&records[1]));
    bytes.extend_from_slice(&[9, 9, 9]);
    let (offset, count) = Scene::parse_file_header(&bytes).unwrap();
    assert_eq!(count, 2);
    let splats = SerializedSplat::decode_all(&bytes, offset, count).unwrap();
    assert_eq!(splats.len(), 2);
    assert!(same(&splats[0], &records[0]));
    assert!(same(&splats[1], &records[1]));
}

#[test]
fn words_are_little_endian() {
    let mut bytes = vec![0u8; 248];
    bytes[0..4].copy_from_slice(&[0x78, 0x56, 0x34, 0x12]);
    bytes[216..220].copy_from_slice(&[0x01, 0x00, 0x00, 0x80]);
    let splat = SerializedSplat::decode(&bytes, 0).unwrap();
    assert!(SerializedSplat::decode(&bytes, 1).is_none());
    assert_eq!(splat.position[0], 0x1234_5678);
    assert_eq!(splat.alpha, 0x8000_0001);
}

#[test]
fn short_body_is_a_format_error() {
    let header = b"element vertex 2\nend_header\n";
    let mut bytes = header.to_vec();
    bytes.extend(raw_bytes(&raw(1)));
    bytes.extend(vec![0u8; 247]);
    let (offset, count) = Scene::parse_file_header(&bytes).unwrap();
    assert_eq!(
        SerializedSplat::decode_all(&bytes, offset, count).err(),
        Some(FormatError::BodyLength)
    );
    bytes.push(0);
    assert!(SerializedSplat::decode_all(&bytes, offset, count).is_ok());
}

#[test]
fn huge_declared_count_is_a_format_error() {
    let bytes = vec![0u8; 1000];
    assert_eq!(
        SerializedSplat::decode_all(&bytes, 0, usize::MAX).err(),
        Some(FormatError::BodyLength)
    );
    assert_eq!(
        SerializedSplat2::decode_all(&bytes, usize::MAX, 2).err(),
        Some(FormatError::BodyLength)
    );
}

#[test]
fn body_without_normal_decodes_field_by_field() {
    let words: Vec<u32> = (0..118).collect();
    let bytes: Vec<u8> = words.iter().flat_map(|w| w.to_le_bytes()).collect();
    let splats = SerializedSplat2::decode_all(&bytes, 0, 2).unwrap();
    assert_eq!(splats.len(), 2);
    assert_eq!(splats[0].position, [0, 1, 2]);
    assert_eq!(splats[0].scale, [3, 4, 5]);
    assert_eq!(splats[0].rotation, [6, 7, 8, 9]);
    assert_eq!(splats[0].alpha, 10);
    assert_eq!(splats[0].color[0], 11);
    assert_eq!(splats[0].color[47], 58);
    assert_eq!(splats[1].position, [59, 60, 61]);
    assert_eq!(splats[1].color[47], 117);
    assert_eq!(
        SerializedSplat2::decode_all(&bytes, 1, 2).err(),
        Some(FormatError::BodyLength)
    );
}

#[test]
fn importance_order_is_descending_and_stable() {
    assert_eq!(importance_order(&vec![5, 9, 5, 1, 9]), vec![1, 4, 0, 2, 3]);
    assert_eq!(importance_order(&vec![3, 3, 3]), vec![0, 1, 2]);
    assert_eq!(importance_order(&vec![0, u32::MAX]), vec![1, 0]);
    assert_eq!(importance_order(&Vec::new()), Vec::<usize>::new());
}

#[test]
fn importance_order_of_many_keys() {
    let keys: Vec<u32> = (0..5000u32).map(|i| (i * 2654435761u32) % 97).collect();
    let order = importance_order(&keys);
    let mut expected: Vec<usize> = (0..keys.len()).collect();
    expected.sort_by(|&a, &b| keys[b].cmp(&keys[a]));
    assert_eq!(order, expected);
}

#[test]
fn load_writes_most_important_first() {
    let splats = vec![
        (raw(1), quantized(10, 5)),
        (raw(2), quantized(20, 9)),
        (raw(3), quantized(30, 5)),
    ];
    let mut scene = Scene::new();
    scene.load(&splats);
    assert_eq!(scene.splat_count(), 3);
    assert_eq!(scene.buffer().len(), 96);
    let expected = [1usize, 0, 2];
    for (row, &i) in expected.iter().enumerate() {
        let got = scene.splat(row).unwrap();
        assert_eq!(
            got,
            PackedSplat {
                position: splats[i].0.position,
                scale: splats[i].1.scale,
                color: splats[i].1.color,
                rotation: splats[i].1.rotation,
            }
        );
    }
    assert_eq!(scene.splat(3), None);
}

#[test]
fn packed_row_layout() {
    let q = Quantized {
        scale: [0x0403_0201, 0x0807_0605, 0x0c0b_0a09],
        color: [1, 2, 3, 4],
        rotation: [5, 6, 7, 8],
        importance: 0,
    };
    let mut r = raw(0);
    r.position = [0x3f80_0000, 0xbf80_0000, 0x4000_0000];
    let mut scene = Scene::new();
    scene.load(&vec![(r, q)]);
    let expected: Vec<u8> = vec![
        0x00, 0x00, 0x80, 0x3f, 0x00, 0x00, 0x80, 0xbf, 0x00, 0x00, 0x00, 0x40, 0x01, 0x02, 0x03,
        0x04, 0x05, 0x06, 0x07, 0x08, 0x09, 0x0a, 0x0b, 0x0c, 1, 2, 3, 4, 5, 6, 7, 8,
    ];
    assert_eq!(scene.buffer(), &expected);
}

#[test]
fn load_no_normal_writes_most_important_first() {
    let record = |p: u32| SerializedSplat2 {
        position: [p, p + 1, p + 2],
        scale: [0; 3],
        rotation: [0; 4],
        alpha: 0,
        color: [0; 48],
    };
    let splats = vec![
        (record(10), quantized(1, 100)),
        (record(20), quantized(2, 300)),
        (record(30), quantized(3, 200)),
    ];
    let mut scene = Scene::new();
    scene.load_no_normal(&splats);
    assert_eq!(scene.splat_count(), 3);
    assert_eq!(scene.buffer().len(), 32 * 3);
    assert_eq!(scene.splat(0).unwrap().position, [20, 21, 22]);
    assert_eq!(scene.splat(1).unwrap().position, [30, 31, 32]);
    assert_eq!(scene.splat(2).unwrap().position, [10, 11, 12]);
    assert_eq!(scene.splat(1).unwrap().color, [3, 4, 5, 6]);
}

#[test]
fn load_replaces_what_was_loaded() {
    let mut scene = Scene::new();
    scene.load(&vec![(raw(1), quantized(1, 1)), (raw(2), quantized(2, 2))]);
    scene.load(&vec![(raw(3), quantized(3, 3))]);
    assert_eq!(scene.splat_count(), 1);
    assert_eq!(scene.splat(0).unwrap().position, raw(3).position);
}

#[test]
fn raw_buffer_is_taken_as_it_is() {
    let buffer: Vec<u8> = (0..64).collect();
    let mut scene = Scene::new();
    assert_eq!(scene.load_buffer(buffer.clone()), Ok(()));
    assert_eq!(scene.splat_count(), 2);
    assert_eq!(scene.buffer(), &buffer);
    assert_eq!(scene.splat(1).unwrap().color, [56, 57, 58, 59]);
    assert_eq!(scene.splat(1).unwrap().rotation, [60, 61, 62, 63]);
    assert_eq!(scene.splat(1).unwrap().position[0], u32::from_le_bytes([32, 33, 34, 35]));
}

#[test]
fn raw_buffer_of_odd_length_is_a_size_error() {
    let mut scene = Scene::new();
    assert_eq!(scene.load_buffer(vec![7u8; 32]), Ok(()));
    assert_eq!(scene.load_buffer(vec![0u8; 33]), Err(SceneError::Size));
    assert_eq!(scene.splat_count(), 1);
    assert_eq!(scene.buffer(), &vec![7u8; 32]);
    assert_eq!(scene.load_buffer(Vec::new()), Ok(()));
    assert_eq!(scene.splat_count(), 0);
}

#[test]
fn new_store_is_empty() {
    let scene = Scene::new();
    assert_eq!(scene.splat_count(), 0);
    assert!(scene.buffer().is_empty());
    assert!(scene.tex_data().is_empty());
    assert_eq!(scene.tex_width(), 0);
    assert_eq!(scene.tex_height(), 0);
}

#[test]
fn texture_of_empty_store_is_left_alone() {
    let mut scene = Scene::new();
    assert!(!scene.generate_texture(&Vec::new()));
    assert!(scene.tex_data().is_empty());
    assert_eq!(scene.tex_width(), 0);
    assert_eq!(scene.tex_height(), 0);
}

#[test]
fn texture_lanes() {
    let buffer: Vec<u8> = (0..64).collect();
    let mut scene = Scene::new();
    scene.load_buffer(buffer).unwrap();
    let one = 1.0f32.to_bits();
    let two = 2.0f32.to_bits();
    let half = 0.5f32.to_bits();
    let covariance = vec![[one, two, half, one, two, half], [two, two, two, one, one, one]];
    assert!(scene.generate_texture(&covariance));
    assert_eq!(scene.tex_width(), 2048);
    assert_eq!(scene.tex_height(), 1);
    let tex = scene.tex_data();
    assert_eq!(tex.len(), 2048 * 4);
    assert_eq!(tex[0], u32::from_le_bytes([0, 1, 2, 3]));
    assert_eq!(tex[1], u32::from_le_bytes([4, 5, 6, 7]));
    assert_eq!(tex[2], u32::from_le_bytes([8, 9, 10, 11]));
    assert_eq!(tex[3], u32::from_le_bytes([24, 25, 26, 27]));
    assert_eq!(tex[4], pack_half_2x16(one, two));
    assert_eq!(tex[4], 0x4000_3c00);
    assert_eq!(tex[5], 0x3c00_3800);
    assert_eq!(tex[6], 0x3800_4000);
    assert_eq!(tex[7], 0);
    assert_eq!(tex[8], u32::from_le_bytes([32, 33, 34, 35]));
    assert_eq!(tex[11], u32::from_le_bytes([56, 57, 58, 59]));
    assert_eq!(tex[12], 0x4000_4000);
    assert_eq!(tex[14], 0x3c00_3c00);
    assert_eq!(tex[15], 0);
    assert!(tex[16..].iter().all(|&w| w == 0));
}

#[test]
fn texture_height_rounds_up() {
    let mut scene = Scene::new();
    scene.load_buffer(vec![0u8; 32 * 1024]).unwrap();
    assert!(scene.generate_texture(&vec![[0u32; 6]; 1024]));
    assert_eq!(scene.tex_height(), 1);
    assert_eq!(scene.tex_data().len(), 2048 * 4);
    scene.load_buffer(vec![0u8; 32 * 1025]).unwrap();
    assert!(scene.generate_texture(&vec![[0u32; 6]; 1025]));
    assert_eq!(scene.tex_height(), 2);
    assert_eq!(scene.tex_data().len(), 2048 * 2 * 4);
}

#[test]
fn texture_twice_is_the_same_texture() {
    let buffer: Vec<u8> = (0..96).map(|i| (i * 7 % 256) as u8).collect();
    let covariance = vec![[1u32, 2, 3, 4, 5, 6]; 3];
    let mut scene = Scene::new();
    scene.load_buffer(buffer).unwrap();
    scene.generate_texture(&covariance);
    let first = scene.tex_data().clone();
    let (w, h) = (scene.tex_width(), scene.tex_height());
    scene.generate_texture(&covariance);
    assert_eq!(scene.tex_data(), &first);
    assert_eq!((scene.tex_width(), scene.tex_height()), (w, h));
}

#[test]
fn texture_needs_one_covariance_per_record() {
    let mut scene = Scene::new();
    scene.load_buffer(vec![0u8; 64]).unwrap();
    assert!(!scene.generate_texture(&vec![[0u32; 6]; 1]));
    assert!(scene.tex_data().is_empty());
    assert!(scene.generate_texture(&vec![[0u32; 6]; 2]));
    let kept = scene.tex_data().clone();
    assert!(!scene.generate_texture(&vec![[1u32; 6]; 3]));
    assert_eq!(scene.tex_data(), &kept);
}

#[test]
fn load_keeps_the_texture() {
    let mut scene = Scene::new();
    scene.load_buffer(vec![1u8; 32]).unwrap();
    scene.generate_texture(&vec![[0u32; 6]; 1]);
    let kept = scene.tex_data().clone();
    scene.load(&vec![(raw(1), quantized(1, 1)), (raw(2), quantized(2, 2))]);
    assert_eq!(scene.tex_data(), &kept);
    assert_eq!(scene.tex_height(), 1);
}

#[test]
fn count_label_groups_digits() {
    let mut scene = Scene::new();
    assert_eq!(scene.splat_count_label(), "0");
    scene.load_buffer(vec![0u8; 32 * 999]).unwrap();
    assert_eq!(scene.splat_count_label(), "999");
    scene.load_buffer(vec![0u8; 32 * 1234]).unwrap();
    assert_eq!(scene.splat_count_label(), "1,234");
    scene.load_buffer(vec![0u8; 32 * 1_002_003]).unwrap();
    assert_eq!(scene.splat_count_label(), "1,002,003");
}

#[test]
fn scale_and_rotation_survive_packing() {
    let log_scale = [0.25f32, -1.5, 3.0];
    let rotation = [0.3f32, -0.4, 0.5, 0.7];
    let length = rotation.iter().map(|r| r * r).sum::<f32>().sqrt();
    let mut q = quantized(0, 1);
    for k in 0..3 {
        q.scale[k] = log_scale[k].exp().to_bits();
    }
    for k in 0..4 {
        q.rotation[k] = (((rotation[k] / length) + 1.0) * 0.5 * 255.0) as u8;
    }
    let mut scene = Scene::new();
    scene.load(&vec![(raw(1), q)]);
    let got = scene.splat(0).unwrap();
    for k in 0..3 {
        let unpacked = f32::from_bits(got.scale[k]);
        assert_eq!(unpacked, log_scale[k].exp());
    }
    for k in 0..4 {
        let unpacked = (got.rotation[k] as f32 / 255.0) * 2.0 - 1.0;
        assert!((-1.0..=1.0).contains(&unpacked));
        assert!((unpacked - rotation[k] / length).abs() <= 2.0 / 255.0);
    }
}

#[test]
fn whole_input_decodes_as_many_records_as_declared() {
    let mut bytes = b"ply\nelement vertex 2\nend_header\n".to_vec();
    bytes.extend(raw_bytes(&raw(4)));
    bytes.extend(raw_bytes(&raw(5)));
    let splats = read_splats(&bytes).unwrap();
    assert_eq!(splats.len(), 2);
    assert!(same(&splats[0], &raw(4)));
    assert!(same(&splats[1], &raw(5)));
    bytes.pop();
    assert_eq!(read_splats(&bytes).err(), Some(FormatError::BodyLength));
    // the same bytes hold two and more of the shorter records
    let shorter = read_splats_no_normal(&bytes).unwrap();
    assert_eq!(shorter.len(), 2);
    assert_eq!(shorter[0].position, raw(4).position);
    assert_eq!(shorter[1].position[0], u32::from_le_bytes([bytes[32 + 236], bytes[33 + 236], bytes[34 + 236], bytes[35 + 236]]));
}

#[test]
fn whole_input_with_a_bad_header_is_rejected() {
    assert_eq!(read_splats(b"ply\nelement vertex 1\n").err(), Some(FormatError::MissingSentinel));
    assert_eq!(
        read_splats(b"element vertex x\nend_header\n").err(),
        Some(FormatError::MalformedHeader)
    );
    assert_eq!(
        read_splats_no_normal(b"element vertex 1\nend_header\n").err(),
        Some(FormatError::BodyLength)
    );
    assert!(read_splats(b"end_header\n").unwrap().is_empty());
}
