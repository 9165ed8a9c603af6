use chunk_sync::chunk::Chunk;
use chunk_sync::chunk::ChunkStatus;
use chunk_sync::section::ChunkSection;
use chunk_sync::section::AIR;
use chunk_sync::view_diff::ChunkPos;
use chunk_sync::view_diff::Region;
use chunk_sync::view_diff::ViewShape;
use chunk_sync::world::World;
use chunk_sync::player::ProtoPlayer;
use chunk_sync::player::run_view_pass;
use chunk_sync::CoreError;

fn loaded_chunk(x: i32, z: i32, sections: usize) -> Chunk {
    let mut c = Chunk::new(ChunkPos { x, z }, sections, 0);
    c.mark_loaded();
    c
}

#[test]
fn section_block_round_trip() {
    let mut s = ChunkSection::new(AIR, 0);
    assert_eq!(s.get_block(1, 2, 3), AIR);
    s.set_block(1, 2, 3, 42);
    assert_eq!(s.get_block(1, 2, 3), 42);
    assert_eq!(s.get_block(3, 2, 1), AIR);
    s.set_block(15, 15, 15, 77);
    assert_eq!(s.get_block(15, 15, 15), 77);
    assert_eq!(s.get_block(1, 2, 3), 42);
}

#[test]
fn section_biome_round_trip() {
    let mut s = ChunkSection::new(AIR, 5);
    assert_eq!(s.get_biome(0, 0, 0), 5);
    s.set_biome(1, 2, 3, 9);
    assert_eq!(s.get_biome(1, 2, 3), 9);
    assert_eq!(s.get_biome(0, 0, 0), 5);
}

#[test]
fn chunk_block_spans_sections() {
    let mut c = Chunk::new(ChunkPos { x: 0, z: 0 }, 2, 0);
    c.set_block(1, 17, 2, 42);
    assert_eq!(c.get_block(1, 17, 2), 42);
    assert_eq!(c.get_block(1, 1, 2), AIR);
    c.set_block(1, 1, 2, 7);
    assert_eq!(c.get_block(1, 1, 2), 7);
    assert_eq!(c.get_block(1, 17, 2), 42);
}

#[test]
fn height_reflects_latest_write() {
    let mut c = Chunk::new(ChunkPos { x: 0, z: 0 }, 2, 0);
    assert_eq!(c.height(1, 2), 0);
    c.set_block(1, 17, 2, 42);
    assert_eq!(c.height(1, 2), 18);
    assert_eq!(c.height(0, 0), 0);
    c.set_block(1, 5, 2, 3);
    assert_eq!(c.height(1, 2), 18);
    // removing the top exposes the block below
    c.set_block(1, 17, 2, AIR);
    assert_eq!(c.height(1, 2), 6);
    let map = c.height_map();
    assert_eq!(map.len(), 256);
    assert_eq!(map[2 * 16 + 1], 6);
    assert_eq!(map[0], 0);
}

#[test]
fn height_at_the_top_of_the_column() {
    let mut c = Chunk::new(ChunkPos { x: 0, z: 0 }, 2, 0);
    c.set_block(0, 31, 0, 1);
    assert_eq!(c.height(0, 0), 32);
    assert_eq!(c.get_block(0, 31, 0), 1);
}

#[test]
fn world_chunk_lifecycle() {
    let mut w = World::new(4);
    let p = ChunkPos { x: 3, z: -2 };
    assert_eq!(w.status_of(p), None);

    assert_eq!(w.begin_loading(p), Ok(()));
    assert_eq!(w.status_of(p), Some(ChunkStatus::Loading));
    // a chunk already in the map cannot start loading again
    assert_eq!(w.begin_loading(p), Err(CoreError::ChunkUnavailable));

    let mut c = Chunk::new(p, 4, 0);
    c.mark_loaded();
    assert_eq!(w.supply_chunk(c), Ok(()));
    assert_eq!(w.status_of(p), Some(ChunkStatus::Loaded));

    assert_eq!(w.begin_unloading(p), Ok(()));
    assert_eq!(w.status_of(p), Some(ChunkStatus::Unloading));
    assert_eq!(w.evict(p), Ok(()));
    assert_eq!(w.status_of(p), None);
}

#[test]
fn world_failed_load_leaves_the_map() {
    let mut w = World::new(4);
    let p = ChunkPos { x: 0, z: 0 };
    assert_eq!(w.begin_loading(p), Ok(()));
    // the external source reported GenerationFailed / StorageUnavailable
    assert_eq!(w.fail_loading(p), Ok(()));
    assert_eq!(w.status_of(p), None);
    // a retry may start over
    assert_eq!(w.begin_loading(p), Ok(()));
}

#[test]
fn world_rejects_misplaced_transitions() {
    let mut w = World::new(4);
    let p = ChunkPos { x: 1, z: 1 };
    assert_eq!(w.begin_unloading(p), Err(CoreError::ChunkUnavailable));
    assert_eq!(w.evict(p), Err(CoreError::ChunkUnavailable));
    let mut c = Chunk::new(p, 4, 0);
    c.mark_loaded();
    // nothing is loading at p yet
    assert_eq!(w.supply_chunk(c), Err(CoreError::ChunkUnavailable));
}

#[test]
fn join_writes_declaration_brand_and_view_position_in_order() {
    let mut w = World::new(1);
    let p = ChunkPos { x: 0, z: 0 };
    w.begin_loading(p).unwrap();
    w.supply_chunk(loaded_chunk(0, 0, 1)).unwrap();

    let proto = ProtoPlayer::new(7);
    let player = proto.create_player(&w, 5, 9, 2, ViewShape::Square).unwrap();
    assert_eq!(player.entity_id, 7);

    let mut expected: Vec<u8> = Vec::new();
    // world-join declaration
    expected.extend_from_slice(&[0x26, 0]);
    expected.extend_from_slice(&7i32.to_le_bytes());
    // brand notice
    expected.extend_from_slice(&[0x18, 4, 0x63, 0x6f, 0x72, 0x65]);
    // view position (chunk 0, 0)
    expected.push(0x48);
    expected.extend_from_slice(&0i32.to_le_bytes());
    expected.extend_from_slice(&0i32.to_le_bytes());
    // the three packets, contiguous and in order, before anything else
    assert_eq!(player.pending_bytes(), &expected);

    // first view diff: the whole initial region, nothing to unload
    let initial = player.initial_chunks();
    assert_eq!(initial.len(), 25);
    for x in -2..=2 {
        for z in -2..=2 {
            assert!(initial.iter().any(|q| q.x == x && q.z == z));
        }
    }
}

#[test]
fn join_aborts_atomically_when_chunk_not_loaded() {
    let mut w = World::new(1);
    let p = ChunkPos { x: 0, z: 0 };
    // absent chunk
    let proto = ProtoPlayer::new(1);
    match proto.create_player(&w, 0, 0, 2, ViewShape::Square) {
        Err(CoreError::ChunkUnavailable) => {},
        _ => panic!("join must fail while the chunk is absent"),
    }
    // chunk still loading
    w.begin_loading(p).unwrap();
    let proto = ProtoPlayer::new(1);
    match proto.create_player(&w, 0, 0, 2, ViewShape::Square) {
        Err(CoreError::ChunkUnavailable) => {},
        _ => panic!("join must fail while the chunk is loading"),
    }
}

#[test]
fn join_resolves_negative_block_coordinates_by_floor() {
    let mut w = World::new(1);
    w.begin_loading(ChunkPos { x: -1, z: -2 }).unwrap();
    w.supply_chunk(loaded_chunk(-1, -2, 1)).unwrap();
    let proto = ProtoPlayer::new(3);
    let player = proto.create_player(&w, -1, -17, 0, ViewShape::Square).unwrap();
    assert_eq!(player.view().center.x, -1);
    assert_eq!(player.view().center.z, -2);
}

#[test]
fn update_view_queues_unload_notices_for_leaving_chunks() {
    let mut w = World::new(1);
    w.begin_loading(ChunkPos { x: 0, z: 0 }).unwrap();
    w.supply_chunk(loaded_chunk(0, 0, 1)).unwrap();
    let proto = ProtoPlayer::new(1);
    let mut player = proto.create_player(&w, 0, 0, 2, ViewShape::Square).unwrap();
    player.take_pending();

    let next = Region { center: ChunkPos { x: 1, z: 0 }, radius: 2, shape: ViewShape::Square };
    let d = player.update_view(next);
    assert_eq!(d.to_load.len(), 5);
    assert_eq!(d.to_unload.len(), 5);
    for z in -2..=2 {
        assert!(d.to_load.iter().any(|q| q.x == 3 && q.z == z));
        assert!(d.to_unload.iter().any(|q| q.x == -2 && q.z == z));
    }
    // one notice per leaving chunk, in diff order
    let mut expected: Vec<u8> = Vec::new();
    for q in d.to_unload.iter() {
        expected.push(0x1a);
        expected.extend_from_slice(&q.x.to_le_bytes());
        expected.extend_from_slice(&q.z.to_le_bytes());
    }
    assert_eq!(player.pending_bytes(), &expected);
    assert_eq!(player.view(), next);
}

#[test]
fn send_chunk_serializes_loaded_chunks_only() {
    let mut w = World::new(1);
    w.begin_loading(ChunkPos { x: 0, z: 0 }).unwrap();
    w.supply_chunk(loaded_chunk(0, 0, 1)).unwrap();
    let proto = ProtoPlayer::new(1);
    let mut player = proto.create_player(&w, 0, 0, 1, ViewShape::Square).unwrap();
    player.take_pending();

    // a chunk that is absent defers
    assert_eq!(
        player.send_chunk(&w, ChunkPos { x: 5, z: 5 }),
        Err(CoreError::ChunkUnavailable)
    );
    assert_eq!(player.pending_bytes().len(), 0);

    // a chunk still loading defers too
    w.begin_loading(ChunkPos { x: 1, z: 0 }).unwrap();
    assert_eq!(
        player.send_chunk(&w, ChunkPos { x: 1, z: 0 }),
        Err(CoreError::ChunkUnavailable)
    );

    // a loaded chunk is serialized: header, then the section payload
    assert_eq!(player.send_chunk(&w, ChunkPos { x: 0, z: 0 }), Ok(()));
    let bytes = player.pending_bytes();
    assert_eq!(bytes[0], 0x22);
    assert_eq!(&bytes[1..5], &0i32.to_le_bytes());
    assert_eq!(&bytes[5..9], &0i32.to_le_bytes());
    // one all-air section: single-value blocks (3 bytes), single-value
    // biomes (3 bytes), two light arrays of 2048 bytes
    assert_eq!(bytes.len(), 9 + 3 + 3 + 2048 + 2048);
    assert_eq!(bytes[9], 0);
    assert_eq!(bytes[12], 0);
}

#[test]
fn run_view_pass_requests_missing_chunks_and_queues_notices() {
    let mut w = World::new(1);
    w.begin_loading(ChunkPos { x: 0, z: 0 }).unwrap();
    w.supply_chunk(loaded_chunk(0, 0, 1)).unwrap();
    let proto = ProtoPlayer::new(2);
    let mut player = proto.create_player(&w, 0, 0, 1, ViewShape::Square).unwrap();
    player.take_pending();

    let next = Region { center: ChunkPos { x: 1, z: 0 }, radius: 1, shape: ViewShape::Square };
    let d = run_view_pass(&mut w, &mut player, next);
    assert_eq!(d.to_load.len(), 3);
    assert_eq!(d.to_unload.len(), 3);
    // entered chunks were absent: they are loading now
    for q in d.to_load.iter() {
        assert_eq!(w.status_of(*q), Some(ChunkStatus::Loading));
    }
    // the already-loaded chunk in the overlap stayed untouched
    assert_eq!(w.status_of(ChunkPos { x: 0, z: 0 }), Some(ChunkStatus::Loaded));
    // pending holds the unload notices only: nothing loaded was entered,
    // and a chunk still loading is never serialized
    assert_eq!(player.pending_bytes().len(), 3 * 9);

    // once the external source supplies a chunk, a retry serializes it
    let mut c = Chunk::new(ChunkPos { x: 2, z: 0 }, 1, 0);
    c.mark_loaded();
    w.supply_chunk(c).unwrap();
    player.take_pending();
    assert_eq!(player.send_chunk(&w, ChunkPos { x: 2, z: 0 }), Ok(()));
    assert_eq!(player.pending_bytes().len(), 9 + 3 + 3 + 2048 + 2048);
}
