use blockbake::location::{Location, LocationErrorKind, LocationPart, ParseLocationError};
use blockbake::pack::{blockstate_path, model_path, texture_meta_path, texture_path, PackIndex, Packs};

#[test]
fn location_parts() {
    let l = Location::new("block/stone").unwrap();
    assert_eq!(l.as_str(), "block/stone");
    assert_eq!(l.as_parts(), ("minecraft".to_string(), "block/stone".to_string()));
    assert_eq!(l.path(), "block/stone");
    let l = Location::new("mod:block/ore").unwrap();
    assert_eq!(l.as_parts(), ("mod".to_string(), "block/ore".to_string()));
    assert!(Location::new("minecraft:block/stone").unwrap().same(&Location::new("block/stone").unwrap()));
}

#[test]
fn location_errors() {
    assert_eq!(Location::new(":x"), Err(ParseLocationError::empty(LocationPart::Namespace)));
    assert_eq!(Location::new("ab:"), Err(ParseLocationError::empty(LocationPart::Path)));
    assert_eq!(Location::new(""), Err(ParseLocationError::empty(LocationPart::Path)));
    assert_eq!(
        Location::new("A:b"),
        Err(ParseLocationError { part: LocationPart::Namespace, kind: LocationErrorKind::IllegalCharacter('A') })
    );
    assert_eq!(Location::new("a/b:c"), Err(ParseLocationError::illegal_char(LocationPart::Namespace, '/')));
    assert_eq!(Location::new("block/Stone"), Err(ParseLocationError::illegal_char(LocationPart::Path, 'S')));
}

#[test]
fn asset_paths() {
    assert_eq!(blockstate_path("oak_planks"), "assets/minecraft/blockstates/oak_planks.json");
    let l = Location::new("block/stone").unwrap();
    assert_eq!(model_path(&l), "assets/minecraft/models/block/stone.json");
    assert_eq!(texture_path(&l), "assets/minecraft/textures/block/stone.png");
    assert_eq!(texture_meta_path(&l), "assets/minecraft/textures/block/stone.png.mcmeta");
}

#[test]
fn pack_overlay_search() {
    let packs = Packs {
        inner: vec![
            PackIndex { files: vec!["a.json".to_string()] },
            PackIndex { files: vec!["b.json".to_string(), "a.json".to_string()] },
            PackIndex { files: vec!["b.json".to_string()] },
        ],
    };
    assert_eq!(packs.find_file(0, "a.json"), Some(0));
    assert_eq!(packs.find_file(1, "a.json"), Some(1));
    assert_eq!(packs.find_file(2, "a.json"), None);
    assert_eq!(packs.find_file(0, "b.json"), Some(1));
    assert_eq!(packs.find_file(2, "b.json"), Some(2));
    assert_eq!(packs.find_file(0, "c.json"), None);
    assert_eq!(packs.find_file(9, "a.json"), None);
}
