use catan_rust::backend::game::{Game, Resource, Tile};

//standard game has 19 tiles
#[test]
fn test_board_tile_count() {
    let game = Game::new(vec!["Alice", "Bob"]);
    // Standard Catan has 19 tiles
    assert_eq!(game.tiles().len(), 19);
}

//each tile has 6 corners
#[test]
fn test_tile_has_six_vertices() {
    let game = Game::new(vec!["Alice", "Bob"]);
    for tile in game.tiles() {
        assert_eq!(tile.vertices.len(), 6);
    }
}

//connections between vertices are bidirectional
#[test]
fn test_vertex_neighbors_bidirectional() {
    let game = Game::new(vec!["Alice", "Bob"]);
    for vertex in game.vertices() {
        for &neighbor_idx in &vertex.neighbors {
            let neighbor = &game.vertices()[neighbor_idx];
            assert!(neighbor.neighbors.contains(&vertex.id),
                "Neighbor relationship should be bidirectional");
        }
    }
}

//only one desert tile
#[test]
fn test_single_desert_tile() {
    let game = Game::new(vec!["Alice", "Bob"]);
    let desert_tiles: Vec<&Tile> = game.tiles().iter()
        .filter(|t| t.resource == Resource::Desert)
        .collect();
    assert_eq!(desert_tiles.len(), 1, "There should be exactly one desert tile");
}

//number tokens are valid
#[test]
fn test_number_tokens_valid() {
    let game = Game::new(vec!["Alice", "Bob"]);
    for tile in game.tiles() {
        if tile.resource != Resource::Desert {
            assert!(tile.number_token.is_some(), "Non-desert tiles should have number tokens");
            let token = tile.number_token.unwrap();
            assert!((2..=12).contains(&token) && token != 7,
                "Number token should be between 2 and 12, excluding 7");
        } else {
            assert!(tile.number_token.is_none(), "Desert tile should have no number token");
        }
    }
}

//7 tiles
#[test]
fn test_small_board() {
    let mut rng = rand::rng();
    let hex_coords = vec![
        (0, 0),
        (1, 0), (2, 0),
        (0, 1), (1, 1), (2, 1),
        (1, 2),
    ];

    let (_vertices, tiles) = Game::generate_board_custom(&mut rng, hex_coords);
    assert_eq!(tiles.len(), 7);
    for tile in &tiles {
        assert_eq!(tile.vertices.len(), 6);
    }
}

//9 tiles
#[test]
fn test_rectangular_board() {
    let mut rng = rand::rng();
    let hex_coords = vec![
        (0,0),(1,0),(2,0),
        (0,1),(1,1),(2,1),
        (0,2),(1,2),(2,2),
    ];
    let (_vertices, tiles) = Game::generate_board_custom(&mut rng, hex_coords);
    assert_eq!(tiles.len(), 9);
    for tile in &tiles {
        assert_eq!(tile.vertices.len(), 6);
    }
}

#[test]
fn test_vertex_connections() {
    let mut rng = rand::rng();

    let hex_coords = vec![
        (7,-1),
        (0,0), (1,0), (7,0), (8,0),
        (-1,1), (0,1)
    ];

    let (vertices, tiles) = Game::generate_board_from_coords(&mut rng, hex_coords);

    //each tile should have 6 vertices
    for tile in &tiles {
        assert_eq!(tile.vertices.len(), 6);
    }

    //each vertex should have at least 2 neighbors
    for vertex in &vertices {
        assert!(vertex.neighbors.len() >= 2,
            "Vertex {} has too few neighbors: {:?}", vertex.id, vertex.neighbors);
    }

    println!("Total vertices: {}", vertices.len());
    for vertex in &vertices {
        println!("Vertex {} (neighbors: {:?})", vertex.id, vertex.neighbors);
    }

    //standard 19 tile Catan coordinates
    let hex_coords = vec![
        (0,0),(1,0),(2,0),
        (-1,1),(0,1),(1,1),(2,1),
        (-2,2),(-1,2),(0,2),(1,2),(2,2),
        (-2,3),(-1,3),(0,3),(1,3),
        (-2,4),(-1,4),(0,4),
    ];

    let (vertices, tiles) = Game::generate_board_from_coords(&mut rng, hex_coords);

    //each tile should have 6 vertices
    for tile in &tiles {
        assert_eq!(tile.vertices.len(), 6);
    }

    //each vertex should have at least 2 neighbors
    for vertex in &vertices {
        assert!(vertex.neighbors.len() >= 2,
            "Vertex {} has too few neighbors: {:?}", vertex.id, vertex.neighbors);
    }

    println!("Total vertices: {}", vertices.len());
    for vertex in &vertices {
        println!("Vertex {} (neighbors: {:?})", vertex.id, vertex.neighbors);
    }
}

// A standard board has 54 corners, 72 edges, and a desert under the robber at the start.
#[test]
fn standard_board_counts() {
    let game = Game::new(vec!["Alice", "Bob", "Carol"]);
    assert_eq!(game.vertices().len(), 54);
    let edges: usize = game.vertices().iter().map(|v| v.neighbors.len()).sum();
    assert_eq!(edges, 2 * 72);
    for (j, v) in game.vertices().iter().enumerate() {
        assert_eq!(v.id, j);
        assert!(v.neighbors.len() == 2 || v.neighbors.len() == 3);
    }
    assert_eq!(game.tiles()[game.robber_tile].resource, Resource::Desert);
    assert_eq!(game.harbors().len(), 9);
    assert_eq!(game.dev_card_pool.len(), 25);
}

// Hexes that share an edge share its two corners.
#[test]
fn neighboring_hexes_share_corners() {
    let mut rng = rand::rng();
    let (vertices, tiles) = Game::generate_board_custom(&mut rng, vec![(0, 0), (1, 0)]);
    assert_eq!(tiles.len(), 2);
    assert_eq!(vertices.len(), 10);
    let shared: Vec<usize> = tiles[0].vertices.iter().filter(|v| tiles[1].vertices.contains(v)).copied().collect();
    assert_eq!(shared.len(), 2);
}

// Mutual neighbors on a generated board, and corners beside each other on a tile are neighbors.
#[test]
fn tile_sides_are_neighbors() {
    let mut rng = rand::rng();
    let (vertices, tiles) = Game::generate_board_custom(&mut rng, vec![(0, 0), (1, 0), (0, 1)]);
    for tile in &tiles {
        for c in 0..6 {
            let a = tile.vertices[c];
            let b = tile.vertices[(c + 1) % 6];
            assert!(vertices[a].neighbors.contains(&b));
            assert!(vertices[b].neighbors.contains(&a));
        }
    }
}

// Terrain beyond 19 tiles repeats and number tokens run out to 2.
#[test]
fn large_board_tokens_fall_back_to_two() {
    let mut rng = rand::rng();
    let coords: Vec<(i32, i32)> = (0..25).map(|i| (i % 5, i / 5)).collect();
    let (_vertices, tiles) = Game::generate_board_custom(&mut rng, coords);
    assert_eq!(tiles.len(), 25);
    let deserts = tiles.iter().filter(|t| t.resource == Resource::Desert).count();
    assert!(deserts >= 1 && deserts <= 2);
    for tile in &tiles {
        assert_eq!(tile.resource == Resource::Desert, tile.number_token.is_none());
    }
    assert!(tiles.iter().any(|t| t.number_token == Some(2)));
}

// The terrain, the numbers and the harbors are shuffled anew for every game.
#[test]
fn boards_are_shuffled() {
    let first: Vec<Resource> = Game::new(vec!["a", "b"]).tiles().iter().map(|t| t.resource).collect();
    let first_tokens: Vec<Option<u8>> = Game::new(vec!["a", "b"]).tiles().iter().map(|t| t.number_token).collect();
    let mut terrain_differs = false;
    let mut tokens_differ = false;
    let mut layouts = std::collections::HashSet::new();
    for _ in 0..40 {
        let game = Game::new(vec!["a", "b"]);
        let terrain: Vec<Resource> = game.tiles().iter().map(|t| t.resource).collect();
        let tokens: Vec<Option<u8>> = game.tiles().iter().map(|t| t.number_token).collect();
        terrain_differs |= terrain != first;
        tokens_differ |= tokens != first_tokens;
        layouts.insert(game.harbors()[0].loc0);
    }
    assert!(terrain_differs);
    assert!(tokens_differ);
    // Both harbor layouts occur.
    assert_eq!(layouts.len(), 2);
}
