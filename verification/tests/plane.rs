use ash::vk::AccelerationStructureInstanceKHR;
use explora::mesh::{merge, CasterRange, MeshPart, VertexBits};
use explora::plane::{
    align_256, caster_mask, ground_frag_spv_rt, instance_rows, is_variant, mat_index, node_index,
    node_offset, pack_blocks, plane_frag_spv, plane_frag_spv_rt, stage_weave, tail_offset,
    weave_mips, LevelCopy, MatId, MaterialBlobs, Node, NODE_COUNT, RT_INSTANCE_BYTES, UBO_BYTES,
    UBO_TAIL_FLOATS, VERTEX_BYTES,
};

/// A module of one word behind the magic number.
fn module(word: u8) -> Vec<u8> {
    vec![0x03, 0x02, 0x23, 0x07, word, 0, 0, 0]
}

fn blobs() -> MaterialBlobs {
    MaterialBlobs {
        samples_4: module(4),
        samples_8: module(8),
        samples_16: module(16),
        samples_32: module(32),
        samples_128: module(128),
    }
}

#[test]
fn material_quality_variants_compile() {
    for samples in [4, 8, 16, 32, 128] {
        assert!(is_variant(samples));
        assert!(!plane_frag_spv(samples, &blobs()).is_empty());
        assert_eq!(plane_frag_spv(samples, &blobs())[1], samples);
        assert_eq!(plane_frag_spv_rt(samples, &blobs())[1], samples);
    }
    assert!(!is_variant(64));
    assert_eq!(ground_frag_spv_rt(&module(9)), vec![0x0723_0203, 9]);
}

#[test]
fn test_ubo_tail_and_bytes_alignment() {
    assert_eq!(UBO_BYTES, 1792);
    assert_eq!(UBO_BYTES % 16, 0);
    let matrix_floats = 16 + 16 + NODE_COUNT * 16;
    let tail_floats = 48;
    assert_eq!((matrix_floats + tail_floats) * std::mem::size_of::<f32>(), UBO_BYTES);
    assert_eq!(tail_floats, UBO_TAIL_FLOATS);
    assert_eq!(tail_offset(), matrix_floats);
    assert_eq!(node_offset(0), 32);
    assert_eq!(node_offset(22) + 16, tail_offset());
}

#[test]
fn test_rt_instance_size() {
    assert_eq!(std::mem::size_of::<AccelerationStructureInstanceKHR>(), 64);
    let inst = AccelerationStructureInstanceKHR {
        transform: ash::vk::TransformMatrixKHR {
            matrix: [1.0, 0.0, 0.0, 0.0, 0.0, 1.0, 0.0, 0.0, 0.0, 0.0, 1.0, 0.0],
        },
        instance_custom_index_and_mask: ash::vk::Packed24_8::new(0, 0xFF),
        instance_shader_binding_table_record_offset_and_flags: ash::vk::Packed24_8::new(0, 0),
        acceleration_structure_reference: ash::vk::AccelerationStructureReferenceKHR {
            device_handle: 12345678,
        },
    };
    assert_eq!(std::mem::size_of_val(&inst), 64);
    assert_eq!(RT_INSTANCE_BYTES, 64);
}

#[test]
fn nodes_and_materials_are_numbered() {
    let mut nodes = vec![Node::Hull, Node::Canopy, Node::WingL, Node::WingR];
    nodes.extend((0..6).map(Node::Flap));
    nodes.push(Node::Rotor);
    nodes.extend((0..10).map(Node::Petal));
    nodes.extend((0..2).map(Node::Fin));
    let places: Vec<usize> = nodes.into_iter().map(node_index).collect();
    assert_eq!(places, (0..NODE_COUNT).collect::<Vec<_>>());
    let mats = [
        MatId::Sail,
        MatId::Composite,
        MatId::Graphite,
        MatId::Titanium,
        MatId::Dark,
        MatId::Seat,
        MatId::Glass,
        MatId::Glow,
    ];
    assert_eq!(mats.map(mat_index), [0, 1, 2, 3, 4, 5, 6, 7]);
    let masks: Vec<u8> = (0..11).map(caster_mask).collect();
    assert_eq!(masks, vec![1, 1, 2, 4, 2, 2, 2, 4, 4, 4, 1]);
}

#[test]
fn instances_are_transposed() {
    let mut c = [0u8; 16];
    for (i, v) in c.iter_mut().enumerate() {
        *v = i as u8;
    }
    assert_eq!(instance_rows(&c), [0, 4, 8, 12, 1, 5, 9, 13, 2, 6, 10, 14]);
}

#[test]
fn blocks_are_aligned_and_apart() {
    assert_eq!(align_256(0), 0);
    assert_eq!(align_256(1), 256);
    assert_eq!(align_256(256), 256);
    assert_eq!(pack_blocks(&vec![10, 256, 257]), (vec![0, 256, 512], 1024));
    assert_eq!(pack_blocks(&vec![]), (vec![], 0));
}

#[test]
fn the_weave_shrinks_to_one_pixel() {
    let mips = weave_mips();
    let sides: Vec<u32> = mips.iter().map(|m| m.side).collect();
    assert_eq!(sides, vec![64, 32, 16, 8, 4, 2, 1]);
    for m in &mips {
        assert_eq!(m.pixels.len(), (4 * m.side * m.side) as usize);
        assert!(m.pixels.chunks_exact(4).all(|p| p[3] == 255));
    }
    assert_eq!(mips[0].pixels[..8], [0xAA, 0xA9, 0x9A, 0xFF, 0xAA, 0xA9, 0x9A, 0xFF]);
    let inner = (17 * 64 + 17) * 4;
    assert_eq!(mips[0].pixels[inner..inner + 4], [0xDA, 0xD6, 0xC7, 0xFF]);
    // (AA + AA + AA + DA) / 4
    assert_eq!(mips[1].pixels[0], ((3 * 0xAAu32 + 0xDA) / 4) as u8);
}

#[test]
fn levels_are_staged_one_behind_the_other() {
    let mips = weave_mips();
    let staged = stage_weave(&mips);
    assert_eq!(staged.bytes.len(), 4 * (4096 + 1024 + 256 + 64 + 16 + 4 + 1));
    assert_eq!(staged.copies[1], LevelCopy { offset: 16384, level: 1, side: 32 });
    for (copy, m) in staged.copies.iter().zip(&mips) {
        assert_eq!(copy.side, m.side);
        assert_eq!(staged.bytes[copy.offset..copy.offset + m.pixels.len()], m.pixels[..]);
    }
}

fn triangle(node: Node, mat: MatId, tag: u32) -> MeshPart {
    let v = |i: u32| VertexBits { pos: [tag, i, 0x3f80_0000], oct: [1, 2], uv: [3, 4], flex: 5 };
    MeshPart { node, mat, verts: vec![v(0), v(1), v(2)], idx: vec![2, 0, 1] }
}

#[test]
fn parts_are_merged_glass_last() {
    let parts = vec![
        triangle(Node::Canopy, MatId::Glass, 10),
        triangle(Node::Rotor, MatId::Dark, 11),
        triangle(Node::Hull, MatId::Glow, 12),
    ];
    let m = merge(&parts);
    assert_eq!(m.stream.len(), 9 * VERTEX_BYTES);
    assert_eq!(m.indices, vec![5, 3, 4, 8, 6, 7, 2, 0, 1]);
    assert_eq!((m.opaque_count, m.glass_count, m.triangles), (6, 3, 3));
    // Casters are grouped by node, without the glass.
    assert_eq!(m.caster_indices, vec![8, 6, 7, 5, 3, 4]);
    assert_eq!(
        m.casters,
        vec![
            CasterRange { node: 0, first: 0, count: 3 },
            CasterRange { node: 10, first: 3, count: 3 },
        ]
    );
    let second = &m.stream[VERTEX_BYTES..2 * VERTEX_BYTES];
    assert_eq!(second[..12], [10, 0, 0, 0, 1, 0, 0, 0, 0, 0, 0x80, 0x3f]);
    // Node and material close each vertex.
    assert_eq!(second[24..], [1, 0, 6, 0]);
}
