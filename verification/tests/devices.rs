use meridian::audio_device::{
    available_capacity, can_push, closest_supported, no_supported_config, ring_capacity,
    AudioDeviceError, AudioStreamConfig, SupportedRange,
};
use meridian::gpu::{
    pack_operand_pairs, pack_values, unpack_values, workgroup_count, BufferUsage, FixedBinaryOp,
};
use meridian::graphics::{check_mesh, BlendMode, MeshRegistryError};

fn range(min_rate: u32, max_rate: u32, min_ch: u16, max_ch: u16, ch: u16) -> SupportedRange {
    SupportedRange {
        min_sample_rate: min_rate,
        max_sample_rate: max_rate,
        min_channels: min_ch,
        max_channels: max_ch,
        channels: ch,
    }
}

#[test]
fn stream_config_defaults_and_errors() {
    let c = AudioStreamConfig::default();
    assert_eq!(c, AudioStreamConfig { sample_rate: 48000, channels: 2, buffer_frames: None });
    assert_eq!(AudioDeviceError::NoDevice.message(), "no default audio output device found");
    assert_eq!(
        AudioDeviceError::StreamError("boom".to_string()).message(),
        "audio stream error: boom"
    );
    match no_supported_config(&c) {
        AudioDeviceError::UnsupportedConfig(m) => {
            assert_eq!(m, "no supported config for 48000 Hz, 2 channels")
        }
        other => panic!("unexpected {other:?}"),
    }
}

#[test]
fn candidates_are_filtered_and_ranked_by_channel_distance() {
    let want = AudioStreamConfig { sample_rate: 44100, channels: 2, buffer_frames: None };
    let ranges = vec![
        range(8000, 96000, 1, 8, 6),   // accepts, distance 4
        range(48000, 96000, 1, 8, 2),  // rate out of range
        range(8000, 48000, 1, 2, 1),   // accepts, distance 1
        range(8000, 48000, 2, 2, 2),   // accepts, distance 0
        range(8000, 48000, 1, 2, 3),   // accepts, distance 1 (after index 2)
        range(8000, 48000, 3, 8, 2),   // channels out of range
    ];
    assert_eq!(closest_supported(&want, &ranges), vec![3, 2, 4, 0]);
}

#[test]
fn ring_capacity_and_backpressure() {
    let c = AudioStreamConfig { sample_rate: 48000, channels: 1, buffer_frames: Some(256) };
    // 256 requested, but never below two hardware buffers of 1024.
    assert_eq!(ring_capacity(&c, None), 2048);
    assert_eq!(ring_capacity(&c, Some(64)), 512);
    let d = AudioStreamConfig { buffer_frames: None, channels: 2, ..c };
    assert_eq!(ring_capacity(&d, Some(512)), 4096);
    assert_eq!(available_capacity(100, 30), 70);
    assert_eq!(available_capacity(100, 130), 0);
    assert!(can_push(100, 30, 70));
    assert!(!can_push(100, 30, 71));
}

#[test]
fn gpu_buffers_round_trip() {
    let values = [0, 1, -1, i32::MIN, i32::MAX, 65536];
    let bytes = pack_values(&values);
    assert_eq!(bytes.len(), 24);
    assert_eq!(&bytes[8..12], &[0xff, 0xff, 0xff, 0xff]);
    assert_eq!(unpack_values(&bytes), values.to_vec());
    let pairs = [(1, -2), (3, 4)];
    let packed = pack_operand_pairs(&pairs);
    assert_eq!(unpack_values(&packed), vec![1, -2, 3, 4]);
    assert_eq!(unpack_values(&[1, 0, 0, 0, 9]), vec![1]);
    assert_eq!(workgroup_count(0), 1);
    assert_eq!(workgroup_count(64), 1);
    assert_eq!(workgroup_count(65), 2);
    assert_eq!(FixedBinaryOp::Mul.entry_point(), "dispatch_mul");
    assert_ne!(BufferUsage::Vertex, BufferUsage::Storage);
}

#[test]
fn mesh_checks_and_messages() {
    assert_eq!(check_mesh(3, 3, 3, 3), Ok(()));
    assert_eq!(check_mesh(70000, 3, 3, 3), Err(MeshRegistryError::TooManyVertices { count: 70000 }));
    assert_eq!(check_mesh(3, 4, 3, 3), Err(MeshRegistryError::NotATriangleList { index_count: 4 }));
    assert_eq!(check_mesh(3, 3, 2, 3), Err(MeshRegistryError::UvCountMismatch { positions: 3, uvs: 2 }));
    assert_eq!(
        check_mesh(3, 3, 3, 1),
        Err(MeshRegistryError::NormalCountMismatch { positions: 3, normals: 1 })
    );
    assert_eq!(
        MeshRegistryError::TooManyVertices { count: 70000 }.message(),
        "mesh has 70000 vertices, beyond u16 index range (65535)"
    );
    assert_eq!(
        MeshRegistryError::UvCountMismatch { positions: 3, uvs: 2 }.message(),
        "3 positions but 2 uvs — must match"
    );
    assert_eq!(BlendMode::default(), BlendMode::Opaque);
}

#[test]
fn mesh_registry_rejects_non_triangle_index_counts() {
    // A triangle's three positions, normals and uvs, but two indices.
    assert_eq!(check_mesh(3, 2, 3, 3), Err(MeshRegistryError::NotATriangleList { index_count: 2 }));
}

#[test]
fn mesh_registry_rejects_meshes_beyond_u16_vertex_range() {
    let count = u16::MAX as usize + 1;
    assert_eq!(check_mesh(count, 3, count, count), Err(MeshRegistryError::TooManyVertices { count }));
}

#[test]
fn mesh_registry_rejects_uv_count_mismatch() {
    assert_eq!(check_mesh(3, 3, 2, 3), Err(MeshRegistryError::UvCountMismatch { positions: 3, uvs: 2 }));
}

#[test]
fn mesh_registry_rejects_normal_count_mismatch() {
    assert_eq!(
        check_mesh(3, 3, 3, 2),
        Err(MeshRegistryError::NormalCountMismatch { positions: 3, normals: 2 })
    );
}
