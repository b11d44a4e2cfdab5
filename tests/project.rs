use gwen2d_engine::category::EntityCategory;
use gwen2d_engine::entity::Entity;
use gwen2d_engine::error::ProjectError;
use gwen2d_engine::frame::Frame;
use gwen2d_engine::project::Project;
use gwen2d_engine::state::EntityState;

fn category(name: &str) -> EntityCategory {
    EntityCategory::new(&name.to_string())
}

fn png_bytes(width: u32, height: u32, pixels: Vec<u8>) -> Vec<u8> {
    let img = image::RgbaImage::from_raw(width, height, pixels).unwrap();
    let mut out = std::io::Cursor::new(Vec::new());
    img.write_to(&mut out, image::ImageFormat::Png).unwrap();
    out.into_inner()
}

#[test]
fn new_project_has_sentinel_category_only() {
    let p = Project::new("demo".to_string());
    assert_eq!(p.name(), "demo");
    assert_eq!(p.categories().len(), 1);
    assert_eq!(p.categories()[0].name(), "Aucune");
    assert!(p.entities().is_empty());
}

#[test]
fn category_defaults_and_names() {
    assert_eq!(EntityCategory::default().name(), "Aucune");
    assert_eq!(category("Hero").name(), "Hero");
    assert!(category("Hero") == category("Hero"));
    assert!(category("Hero") != category("Foe"));
    assert_eq!(EntityState::default().name(), "default");
    assert_eq!(EntityState::new("Idle").name(), "Idle");
    let e = Entity::default(category("Hero"));
    assert_eq!(e.name(), "Aucune");
    assert_eq!(e.category.name(), "Hero");
}

#[test]
fn add_category_twice_fails_second_time() {
    let mut p = Project::new("demo".to_string());
    assert_eq!(p.add_category("Monsters"), Ok(()));
    assert_eq!(p.categories().len(), 2);
    assert_eq!(p.categories()[1].name(), "Monsters");
    assert_eq!(p.add_category("Monsters"), Err(ProjectError::DuplicateCategory));
    assert_eq!(p.categories().len(), 2);
    assert_eq!(p.add_category("Aucune"), Err(ProjectError::DuplicateCategory));
    assert_eq!(p.add_category("monsters"), Ok(()));
    assert_eq!(p.categories().len(), 3);
}

#[test]
fn add_entity_twice_keeps_first() {
    let mut p = Project::new("demo".to_string());
    p.add_category("cat").unwrap();
    assert_eq!(p.add_entity(&category("cat"), "Hero"), Ok(()));
    p.add_entity_state("Hero", "Idle").unwrap();
    assert_eq!(
        p.add_entity(&category("Aucune"), "Hero"),
        Err(ProjectError::DuplicateEntity)
    );
    assert_eq!(p.entities().len(), 1);
    let hero = &p.entities()[0];
    assert_eq!(hero.name(), "Hero");
    assert_eq!(hero.category.name(), "cat");
    assert_eq!(hero.states.len(), 1);
    assert_eq!(hero.states[0].name(), "Idle");
}

#[test]
fn add_entity_with_unregistered_category_fails() {
    let mut p = Project::new("demo".to_string());
    assert_eq!(
        p.add_entity(&category("Ghosts"), "Boo"),
        Err(ProjectError::UnknownCategory)
    );
    assert!(p.entities().is_empty());
}

#[test]
fn add_state_before_entity_fails() {
    let mut p = Project::new("demo".to_string());
    assert_eq!(
        p.add_entity_state("Hero", "Idle"),
        Err(ProjectError::EntityNotFound)
    );
    p.add_category("cat").unwrap();
    p.add_entity(&category("cat"), "Hero").unwrap();
    assert!(p.get_states("Hero").is_empty());
    assert_eq!(p.entities()[0].states.len(), 0);
}

#[test]
fn duplicate_state_fails() {
    let mut p = Project::new("demo".to_string());
    p.add_entity(&category("Aucune"), "Hero").unwrap();
    assert_eq!(p.add_entity_state("Hero", "Idle"), Ok(()));
    assert_eq!(
        p.add_entity_state("Hero", "Idle"),
        Err(ProjectError::DuplicateState)
    );
    assert_eq!(p.add_entity_state("Hero", "Run"), Ok(()));
    let names: Vec<String> = p.get_states("Hero").iter().map(|s| s.name()).collect();
    assert_eq!(names, vec!["Idle".to_string(), "Run".to_string()]);
}

#[test]
fn get_states_of_missing_entity_is_empty() {
    let mut p = Project::new("demo".to_string());
    assert!(p.get_states("NoSuchEntity").is_empty());
    p.add_entity(&category("Aucune"), "Hero").unwrap();
    p.add_entity_state("Hero", "Idle").unwrap();
    assert!(p.get_states("NoSuchEntity").is_empty());
    assert_eq!(p.get_states("Hero").len(), 1);
}

#[test]
fn frames_keep_their_order() {
    let mut p = Project::new("demo".to_string());
    p.add_entity(&category("Aucune"), "Hero").unwrap();
    p.add_entity_state("Hero", "Idle").unwrap();
    let a = Frame::from_rgba(1, 1, vec![1, 2, 3, 4]).unwrap();
    let b = Frame::from_rgba(1, 1, vec![5, 6, 7, 8]).unwrap();
    assert_eq!(p.add_frame("Hero", "Idle", a), Ok(()));
    assert_eq!(p.add_frame("Hero", "Idle", b), Ok(()));
    let states = p.get_states("Hero");
    assert_eq!(states[0].frames.len(), 2);
    assert_eq!(states[0].frames[0].pixels(), &vec![1, 2, 3, 4]);
    assert_eq!(states[0].frames[1].pixels(), &vec![5, 6, 7, 8]);
}

#[test]
fn add_frame_errors() {
    let mut p = Project::new("demo".to_string());
    let f = Frame::from_rgba(1, 1, vec![0, 0, 0, 255]).unwrap();
    assert_eq!(p.add_frame("Hero", "Idle", f), Err(ProjectError::EntityNotFound));
    p.add_entity(&category("Aucune"), "Hero").unwrap();
    let f = Frame::from_rgba(1, 1, vec![0, 0, 0, 255]).unwrap();
    assert_eq!(p.add_frame("Hero", "Idle", f), Err(ProjectError::StateNotFound));
}

#[test]
fn frame_size_must_match() {
    assert!(Frame::from_rgba(2, 1, vec![0; 8]).is_some());
    assert!(Frame::from_rgba(2, 1, vec![0; 7]).is_none());
    assert!(Frame::from_rgba(0, 5, vec![]).is_some());
    let f = Frame::from_rgba(2, 2, vec![9; 16]).unwrap();
    assert_eq!(f.width(), 2);
    assert_eq!(f.height(), 2);
    assert!(f.same_as(&f.duplicate()));
    assert!(!f.same_as(&Frame::from_rgba(2, 2, vec![8; 16]).unwrap()));
}

#[test]
fn import_frame_decodes_png() {
    let mut p = Project::new("demo".to_string());
    p.add_entity(&category("Aucune"), "Hero").unwrap();
    p.add_entity_state("Hero", "Idle").unwrap();
    let pixels: Vec<u8> = (0..24).collect();
    let bytes = png_bytes(3, 2, pixels.clone());
    assert_eq!(p.import_frame("Hero", "Idle", &bytes), Ok(()));
    let states = p.get_states("Hero");
    let frame = &states[0].frames[0];
    assert_eq!(frame.width(), 3);
    assert_eq!(frame.height(), 2);
    assert_eq!(frame.pixels(), &pixels);
}

#[test]
fn import_frame_rejects_garbage() {
    let mut p = Project::new("demo".to_string());
    p.add_entity(&category("Aucune"), "Hero").unwrap();
    p.add_entity_state("Hero", "Idle").unwrap();
    assert_eq!(
        p.import_frame("Hero", "Idle", &vec![1, 2, 3]),
        Err(ProjectError::Decode)
    );
    assert_eq!(
        p.import_frame("Nobody", "Idle", &vec![1, 2, 3]),
        Err(ProjectError::EntityNotFound)
    );
    assert!(p.get_states("Hero")[0].frames.is_empty());
}

#[test]
fn decode_reads_png() {
    let bytes = png_bytes(1, 1, vec![10, 20, 30, 40]);
    let f = Frame::decode(&bytes).unwrap();
    assert_eq!(f.pixels(), &vec![10, 20, 30, 40]);
    assert!(Frame::decode(&vec![0, 1, 2]).is_err());
}

#[test]
fn equality_compares_frames_too() {
    let mut a = EntityState::new("Idle");
    let mut b = EntityState::new("Idle");
    assert!(a == b);
    a.push_frame(Frame::from_rgba(1, 1, vec![1, 1, 1, 1]).unwrap());
    b.push_frame(Frame::from_rgba(1, 1, vec![1, 1, 1, 2]).unwrap());
    assert!(a != b);
    let c = a.duplicate();
    assert!(a == c);
    let e1 = Entity::new("Hero", &category("cat"));
    let e2 = Entity::new("Hero", &category("other"));
    assert!(e1 != e2);
    assert!(e1 == e1.duplicate());
}

#[test]
fn entity_equality_ignores_state_order() {
    let mut a = Entity::new("Hero", &category("cat"));
    let mut b = Entity::new("Hero", &category("cat"));
    a.add_state("Idle").unwrap();
    a.add_state("Run").unwrap();
    b.add_state("Run").unwrap();
    b.add_state("Idle").unwrap();
    assert!(a == b);
    b.add_state("Jump").unwrap();
    assert!(a != b);
}

#[test]
fn from_decoded_keeps_size_and_bytes() {
    let f = Frame::from_decoded(Ok((2, 1, vec![1, 2, 3, 4, 5, 6, 7, 8]))).unwrap();
    assert_eq!(f.width(), 2);
    assert_eq!(f.height(), 1);
    assert_eq!(f.pixels(), &vec![1, 2, 3, 4, 5, 6, 7, 8]);
    assert_eq!(Frame::from_decoded(Ok((2, 2, vec![0; 8]))).err(), Some(ProjectError::Decode));
    let limit = image::error::LimitError::from_kind(image::error::LimitErrorKind::DimensionError);
    assert_eq!(
        Frame::from_decoded(Err(image::ImageError::Limits(limit))).err(),
        Some(ProjectError::Decode)
    );
}
