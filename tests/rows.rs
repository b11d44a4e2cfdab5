use gwen2d_engine::category::EntityCategory;
use gwen2d_engine::frame::Frame;
use gwen2d_engine::project::Project;
use gwen2d_engine::rows::{from_rows, to_rows, CategoryRow, EntityRow, FrameRow, LoadError, ProjectRows, StateRow};

fn frame(seed: u8) -> Frame {
    Frame::from_rgba(2, 1, vec![seed, seed + 1, seed + 2, 255, seed + 3, seed + 4, seed + 5, 128]).unwrap()
}

fn sample() -> Project {
    let mut p = Project::new("demo".to_string());
    p.add_category("Monsters").unwrap();
    let monsters = EntityCategory::new(&"Monsters".to_string());
    let none = EntityCategory::default();
    p.add_entity(&none, "Hero").unwrap();
    p.add_entity(&monsters, "Slime").unwrap();
    p.add_entity(&monsters, "Bat").unwrap();
    p.add_entity_state("Hero", "Idle").unwrap();
    p.add_entity_state("Hero", "Run").unwrap();
    p.add_entity_state("Slime", "Idle").unwrap();
    p.add_entity_state("Bat", "Fly").unwrap();
    p.add_entity_state("Bat", "Die").unwrap();
    let mut seed = 0u8;
    for (e, s, n) in [("Hero", "Idle", 2), ("Hero", "Run", 3), ("Bat", "Fly", 1), ("Bat", "Die", 1)] {
        for _ in 0..n {
            p.add_frame(e, s, frame(seed)).unwrap();
            seed += 10;
        }
    }
    p
}

fn same_project(a: &Project, b: &Project) -> bool {
    a.name() == b.name()
        && a.categories().len() == b.categories().len()
        && a.categories().iter().zip(b.categories()).all(|(x, y)| x == y)
        && a.entities().len() == b.entities().len()
        && a.entities().iter().zip(b.entities()).all(|(x, y)| x.same_as(y))
}

#[test]
fn rows_follow_creation_order() {
    let p = sample();
    let rows = to_rows(&p).unwrap();
    assert_eq!(rows.categories.len(), 2);
    assert_eq!(rows.entities.len(), 3);
    assert_eq!(rows.states.len(), 5);
    assert_eq!(rows.frames.len(), 7);
    assert_eq!(rows.categories[1].id, 2);
    assert_eq!(rows.categories[1].name, "Monsters");
    assert_eq!(rows.entities[0].category_id, 1);
    assert_eq!(rows.entities[2].category_id, 2);
    assert_eq!(rows.entities[2].name, "Bat");
    let states: Vec<(u64, u64, String)> = rows.states.iter().map(|s| (s.id, s.entity_id, s.name.clone())).collect();
    assert_eq!(
        states,
        vec![
            (1, 1, "Idle".to_string()),
            (2, 1, "Run".to_string()),
            (3, 2, "Idle".to_string()),
            (4, 3, "Fly".to_string()),
            (5, 3, "Die".to_string()),
        ]
    );
    let frames: Vec<(u64, u64, u64)> = rows.frames.iter().map(|f| (f.id, f.state_id, f.position)).collect();
    assert_eq!(
        frames,
        vec![(1, 1, 0), (2, 1, 1), (3, 2, 0), (4, 2, 1), (5, 2, 2), (6, 4, 0), (7, 5, 0)]
    );
    assert_eq!(rows.frames[2].frame.pixels()[0], 20);
}

#[test]
fn round_trip_rebuilds_the_same_tree() {
    let p = sample();
    let rows = to_rows(&p).unwrap();
    let q = from_rows("demo".to_string(), &rows).unwrap();
    assert!(same_project(&p, &q));
    let hero_run = &q.get_states("Hero")[1];
    assert_eq!(hero_run.frames.len(), 3);
    assert_eq!(hero_run.frames[0].pixels()[0], 20);
    assert_eq!(hero_run.frames[2].pixels()[0], 40);
}

#[test]
fn round_trip_of_fresh_project() {
    let p = Project::new("empty".to_string());
    let q = from_rows("empty".to_string(), &to_rows(&p).unwrap()).unwrap();
    assert!(same_project(&p, &q));
}

fn small_rows() -> ProjectRows {
    ProjectRows {
        categories: vec![CategoryRow { id: 1, name: "Aucune".to_string() }],
        entities: vec![EntityRow { id: 1, category_id: 1, name: "Hero".to_string() }],
        states: vec![StateRow { id: 1, entity_id: 1, name: "Idle".to_string() }],
        frames: vec![FrameRow { id: 1, state_id: 1, position: 0, frame: frame(1) }],
    }
}

#[test]
fn load_small_rows() {
    let q = from_rows("p".to_string(), &small_rows()).unwrap();
    assert_eq!(q.get_states("Hero")[0].frames.len(), 1);
}

#[test]
fn load_rejects_bad_id() {
    let mut rows = small_rows();
    rows.states[0].id = 7;
    assert_eq!(from_rows("p".to_string(), &rows).err(), Some(LoadError::RowId));
}

#[test]
fn load_rejects_missing_parent() {
    let mut rows = small_rows();
    rows.entities[0].category_id = 2;
    assert_eq!(from_rows("p".to_string(), &rows).err(), Some(LoadError::MissingParent));
    let mut rows = small_rows();
    rows.frames[0].state_id = 0;
    assert_eq!(from_rows("p".to_string(), &rows).err(), Some(LoadError::MissingParent));
}

#[test]
fn load_rejects_duplicates() {
    let mut rows = small_rows();
    rows.categories.push(CategoryRow { id: 2, name: "Aucune".to_string() });
    assert_eq!(from_rows("p".to_string(), &rows).err(), Some(LoadError::Conflict));
    let mut rows = small_rows();
    rows.states.push(StateRow { id: 2, entity_id: 1, name: "Idle".to_string() });
    assert_eq!(from_rows("p".to_string(), &rows).err(), Some(LoadError::Conflict));
}

#[test]
fn load_rejects_frame_gap() {
    let mut rows = small_rows();
    rows.frames[0].position = 1;
    assert_eq!(from_rows("p".to_string(), &rows).err(), Some(LoadError::FrameOrder));
}
