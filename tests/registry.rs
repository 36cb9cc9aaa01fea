use tileset_loader::{
    BuildDecision, TilesetDirs, TilesetHandlesMap, TilesetLoadEvent, TilesetLoadRequest,
};

fn tiles(first: u32, n: u32) -> Vec<(u32, String)> {
    (first..first + n).map(|h| (h, format!("T{}", h))).collect()
}

fn request(name: &str, max_columns: Option<usize>) -> TilesetLoadRequest {
    let mut r = TilesetLoadRequest::named(name, vec![TilesetDirs::from_dir("tiles")]);
    r.max_columns = max_columns;
    r
}

#[test]
fn requests_for_one_name_merge() {
    let mut map: TilesetHandlesMap<u32, String> = TilesetHandlesMap::new();
    map.load_tiles(&request("grass", None), tiles(0, 2));
    map.load_tiles(&request("grass", Some(3)), tiles(2, 3));
    assert_eq!(map.len(), 1);
    let group = map.get(&"grass".to_string()).unwrap();
    assert_eq!(group.len(), 5);
    assert!(group.is_dirty());
    assert_eq!(group.max_columns(), Some(3));
    let handles: Vec<u32> = group.handles().iter().map(|t| t.0).collect();
    assert_eq!(handles, vec![0, 1, 2, 3, 4]);
}

#[test]
fn different_names_make_different_groups() {
    let mut map: TilesetHandlesMap<u32, String> = TilesetHandlesMap::new();
    map.load_tiles(&request("grass", None), tiles(0, 1));
    map.load_tiles(&request("water", None), tiles(1, 1));
    assert_eq!(map.len(), 2);
    assert_eq!(map.names(), vec!["grass".to_string(), "water".to_string()]);
}

#[test]
fn unnamed_request_gets_a_fresh_group() {
    let mut map: TilesetHandlesMap<u32, String> = TilesetHandlesMap::new();
    let a = map.load_tiles(&request("", None), tiles(0, 1));
    let b = map.load_tiles(&request("", None), tiles(1, 1));
    assert_ne!(a, b);
    assert_eq!(a.len(), 36);
    assert_eq!(map.len(), 2);
}

#[test]
fn empty_group_is_dropped_without_build() {
    let mut map: TilesetHandlesMap<u32, String> = TilesetHandlesMap::new();
    map.load_tiles(&request("broken", None), Vec::new());
    assert_eq!(map.len(), 1);
    let jobs = map.tick(&vec![true]);
    assert!(jobs.is_empty());
    assert_eq!(map.len(), 0);
    assert!(map.get(&"broken".to_string()).is_none());
}

#[test]
fn group_waits_until_all_textures_load() {
    let mut map: TilesetHandlesMap<u32, String> = TilesetHandlesMap::new();
    map.load_tiles(&request("grass", None), tiles(0, 3));
    let group = map.get(&"grass".to_string()).unwrap();
    assert!(!group.is_ready(&vec![true, false, true]));
    assert!(!group.is_ready(&vec![true, true]));
    assert!(group.is_ready(&vec![true, true, true]));
    for _ in 0..3 {
        let jobs = map.tick(&vec![false]);
        assert!(jobs.is_empty());
        assert_eq!(map.get(&"grass".to_string()).unwrap().len(), 3);
    }
    let jobs = map.tick(&vec![]);
    assert!(jobs.is_empty());
    assert_eq!(map.len(), 1);
    let jobs = map.tick(&vec![true]);
    assert_eq!(jobs.len(), 1);
    assert_eq!(map.len(), 0);
}

#[test]
fn group_is_built_once() {
    let mut map: TilesetHandlesMap<u32, String> = TilesetHandlesMap::new();
    map.load_tiles(&request("grass", None), tiles(0, 2));
    let jobs = map.tick(&vec![true]);
    assert_eq!(jobs.len(), 1);
    assert_eq!(jobs[0].name, "grass");
    assert!(map.tick(&vec![true]).is_empty());
    assert!(map.get(&"grass".to_string()).is_none());
    map.load_tiles(&request("grass", None), tiles(5, 1));
    let jobs = map.tick(&vec![true]);
    assert_eq!(jobs.len(), 1);
    assert_eq!(jobs[0].tiles.len(), 1);
}

#[test]
fn parse_failures_leave_the_valid_tiles() {
    let mut map: TilesetHandlesMap<u32, String> = TilesetHandlesMap::new();
    map.load_tiles(&request("mixed", None), tiles(0, 3));
    assert_eq!(map.get(&"mixed".to_string()).unwrap().len(), 3);
    let jobs = map.tick(&vec![true]);
    assert_eq!(jobs.len(), 1);
    assert_eq!(jobs[0].tiles.len(), 3);
}

#[test]
fn build_job_lays_out_tiles_in_order() {
    let mut map: TilesetHandlesMap<u32, String> = TilesetHandlesMap::new();
    map.load_tiles(&request("grid", Some(2)), tiles(1, 5));
    let jobs = map.tick(&vec![true]);
    let job = &jobs[0];
    let names: Vec<&str> = job.tiles.iter().map(|t| t.1.as_str()).collect();
    assert_eq!(names, vec!["T1", "T2", "T3", "T4", "T5"]);
    assert_eq!(job.layout(), vec![(0, 0), (1, 0), (0, 1), (1, 1), (0, 2)]);
    assert_eq!(job.grid(), (2, 3));
}

#[test]
fn one_tick_handles_each_group_on_its_own() {
    let mut map: TilesetHandlesMap<u32, String> = TilesetHandlesMap::new();
    map.load_tiles(&request("slow", None), tiles(0, 1));
    map.load_tiles(&request("empty", None), Vec::new());
    map.load_tiles(&request("fast", None), tiles(1, 1));
    let jobs = map.tick(&vec![false, true, true]);
    assert_eq!(jobs.len(), 1);
    assert_eq!(jobs[0].name, "fast");
    assert_eq!(map.names(), vec!["slow".to_string()]);
}

#[test]
fn decisions_follow_rule_order() {
    let mut map: TilesetHandlesMap<u32, String> = TilesetHandlesMap::new();
    map.load_tiles(&request("empty", None), Vec::new());
    map.load_tiles(&request("grass", None), tiles(0, 1));
    let empty = map.get(&"empty".to_string()).unwrap();
    assert_eq!(empty.decide(true), BuildDecision::DiscardEmpty);
    let grass = map.get(&"grass".to_string()).unwrap();
    assert_eq!(grass.decide(false), BuildDecision::Pending);
    assert_eq!(grass.decide(true), BuildDecision::Build);
}

#[test]
fn grass_end_to_end() {
    let mut map: TilesetHandlesMap<u32, String> = TilesetHandlesMap::new();
    let request = TilesetLoadRequest::named("grass", vec![TilesetDirs::from_dirs("tiles/grass", "tiles/grass")]);
    let name = map.load_tiles(&request, vec![(7, "grass".to_string())]);
    assert_eq!(name, "grass");
    assert!(map.tick(&vec![false]).is_empty());
    let jobs = map.tick(&vec![true]);
    assert_eq!(jobs.len(), 1);
    let job = &jobs[0];
    assert_eq!(job.tiles, vec![(7, "grass".to_string())]);
    assert_eq!(job.layout(), vec![(0, 0)]);
    assert_eq!(job.grid(), (1, 1));
    match job.loaded_event() {
        TilesetLoadEvent::LoadedTileset(n) => assert_eq!(n, "grass"),
        TilesetLoadEvent::LoadTiles(_) => panic!("wrong variant"),
    }
    assert_eq!(map.len(), 0);
}
