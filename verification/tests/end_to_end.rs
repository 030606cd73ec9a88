use chunkstream::client::ClientWorldState;
use chunkstream::coords::ChunkCoord;
use chunkstream::protocol::{ChunkData, ChunkRequest};
use chunkstream::store::WorldState;
use chunkstream::table::set_has;
use chunkstream::terrain::WorldConfig;

#[test]
fn client_at_origin_loads_its_whole_window() {
    let config = WorldConfig::default();
    let mut server = WorldState::new();
    let mut client = ClientWorldState::new(1);

    // First tick: the client stands at world position (0, 0) with
    // chunk_size 32 and view distance 1, and requests its window.
    let out = client.client_tick(0, 0, 32, &Vec::new(), 120);
    assert_eq!(out.requests.len(), 9);
    for dy in -1..=1 {
        for dx in -1..=1 {
            assert!(set_has(&out.requests, ChunkCoord { x: dx, y: dy }));
        }
    }

    // The empty server generates and answers all nine.
    assert_eq!(server.active_chunks.len(), 0);
    let mut deliveries: Vec<ChunkData> = Vec::new();
    for coord in out.requests.iter() {
        deliveries.push(server.handle_request(&config, ChunkRequest { coord: *coord }));
    }
    assert_eq!(server.active_chunks.len(), 9);

    // Second tick: every delivery is materialised; the client ends with
    // loaded equal to visible and nothing pending.
    let out2 = client.client_tick(0, 0, 32, &deliveries, 120);
    assert_eq!(out2.accepted.len(), 9);
    assert_eq!(out2.requests.len(), 0);
    assert_eq!(client.loaded_chunks.len(), 9);
    assert_eq!(client.requested_chunks.len(), 0);
    assert_eq!(client.visible_chunks.len(), 9);
    for c in client.visible_chunks.iter() {
        assert!(set_has(&client.loaded_chunks, *c));
    }
    for c in client.loaded_chunks.iter() {
        assert!(set_has(&client.visible_chunks, *c));
    }
}

#[test]
fn late_delivery_for_a_left_window_is_dropped_then_recovered() {
    let config = WorldConfig::default();
    let mut server = WorldState::new();
    let mut client = ClientWorldState::new(1);

    let out = client.client_tick(0, 0, 32, &Vec::new(), 120);
    let mut deliveries: Vec<ChunkData> = Vec::new();
    for coord in out.requests.iter() {
        deliveries.push(server.handle_request(&config, ChunkRequest { coord: *coord }));
    }

    // The player moves far away before the answers arrive: all nine are
    // stale and discarded without error.
    let out2 = client.client_tick(3200, 3200, 32, &deliveries, 120);
    assert_eq!(out2.accepted.len(), 0);
    assert_eq!(client.loaded_chunks.len(), 0);
    // The new window is requested instead.
    assert_eq!(out2.requests.len(), 9);
    assert!(set_has(&out2.requests, ChunkCoord { x: 100, y: 100 }));
}
