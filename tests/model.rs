use blockbake::direction::Direction;
use blockbake::location::Location;
use blockbake::model::{
    ambient_occlusion, chain_text, default_shade, default_tint_index, default_weight, elements, resolve_texture,
    Element, ElementFace, LoadStep, ModelError, ModelLoader, Point, RawModel, TextureEntry, TextureVarError,
};

fn loc(s: &str) -> Location {
    Location::new(s).unwrap()
}

fn cube(size: i32) -> Element {
    Element {
        from: Point { x: 0, y: 0, z: 0 },
        to: Point { x: size, y: size, z: size },
        rotation: None,
        shade: true,
        faces: vec![(
            Direction::Up,
            ElementFace { uvs: None, texture: "all".to_string(), cullface: None, tint_index: -1 },
        )],
    }
}

fn raw(parent: Option<&str>, elements: Vec<Element>, textures: Vec<(String, TextureEntry)>) -> RawModel {
    RawModel { parent_location: parent.map(loc), ambient_occlusion: None, textures, elements }
}

fn load_chain(files: &[(&str, RawModel)], start: &str) -> Result<(ModelLoader, usize), ModelError> {
    let mut loader = ModelLoader::new();
    let mut step = loader.request(loc(start), 0);
    loop {
        match step {
            LoadStep::Done(i) => return Ok((loader, i)),
            LoadStep::Need(l, pack) => {
                let (_, m) = files.iter().find(|(name, _)| loc(name).same(&l)).unwrap();
                step = loader.supply(pack, m.clone())?;
            }
        }
    }
}

#[test]
fn parent_elements_inherited() {
    let files = vec![
        ("child", raw(Some("base"), vec![], vec![])),
        ("base", raw(None, vec![cube(16384), cube(8192)], vec![])),
    ];
    let (loader, i) = load_chain(&files, "child").unwrap();
    let ms = loader.models();
    assert_eq!(ms.len(), 2);
    assert!(ms[i].location.same(&loc("child")));
    let p = ms[i].parent.unwrap();
    assert!(ms[p].location.same(&loc("base")));
    let es = elements(ms, i);
    assert_eq!(es.len(), 2);
    assert_eq!(es[0].to, Point { x: 16384, y: 16384, z: 16384 });
    assert_eq!(es[1].to, Point { x: 8192, y: 8192, z: 8192 });
    assert!(ambient_occlusion(ms, i));
}

#[test]
fn ambient_occlusion_from_nearest_setter() {
    let mut base = raw(None, vec![cube(16384)], vec![]);
    base.ambient_occlusion = Some(false);
    let files = vec![("child", raw(Some("base"), vec![], vec![])), ("base", base)];
    let (loader, i) = load_chain(&files, "child").unwrap();
    assert!(!ambient_occlusion(loader.models(), i));
    let mut child = raw(Some("base"), vec![], vec![]);
    child.ambient_occlusion = Some(true);
    let mut base = raw(None, vec![], vec![]);
    base.ambient_occlusion = Some(false);
    let (loader, i) = load_chain(&[("child", child), ("base", base)], "child").unwrap();
    assert!(ambient_occlusion(loader.models(), i));
}

#[test]
fn cached_model_is_reused() {
    let files = vec![
        ("child", raw(Some("base"), vec![], vec![])),
        ("other", raw(Some("base"), vec![], vec![])),
        ("base", raw(None, vec![cube(16384)], vec![])),
    ];
    let (mut loader, _) = load_chain(&files, "child").unwrap();
    assert!(matches!(loader.request(loc("minecraft:child"), 0), LoadStep::Done(_)));
    let step = loader.request(loc("other"), 0);
    let step = match step {
        LoadStep::Need(l, p) => {
            assert_eq!(l.as_str(), "other");
            loader.supply(p, files[1].1.clone()).unwrap()
        }
        LoadStep::Done(_) => panic!("other is not cached yet"),
    };
    assert!(matches!(step, LoadStep::Done(2)));
    assert_eq!(loader.models().len(), 3);
}

#[test]
fn parent_cycle_is_reported() {
    let files = vec![
        ("a", raw(Some("b"), vec![], vec![])),
        ("b", raw(Some("c"), vec![], vec![])),
        ("c", raw(Some("a"), vec![], vec![])),
    ];
    match load_chain(&files, "a") {
        Err(ModelError::Cycle(chain)) => {
            let names: Vec<&str> = chain.iter().map(|l| l.as_str()).collect();
            assert_eq!(names, vec!["a", "b", "c", "a"]);
            assert_eq!(chain_text(&chain), "a -> b -> c -> a");
        }
        other => panic!("expected a cycle, got {:?}", other.map(|(_, i)| i)),
    }
}

#[test]
fn supply_without_request() {
    let mut loader = ModelLoader::new();
    assert!(matches!(loader.supply(0, raw(None, vec![], vec![])), Err(ModelError::NotWaiting)));
}

#[test]
fn texture_variables_resolve() {
    let files = vec![
        (
            "child",
            raw(Some("base"), vec![], vec![("bottom".to_string(), TextureEntry::Variable("all".to_string()))]),
        ),
        ("base", raw(None, vec![cube(16384)], vec![("all".to_string(), TextureEntry::Location(loc("block/stone")))])),
    ];
    let (loader, i) = load_chain(&files, "child").unwrap();
    let r = resolve_texture(loader.models(), i, "bottom").unwrap();
    assert_eq!(r.as_str(), "block/stone");
    assert!(matches!(resolve_texture(loader.models(), i, "top"), Err(TextureVarError::Undefined(v)) if v == "top"));
}

#[test]
fn texture_self_reference_is_a_cycle() {
    let files = vec![("m", raw(None, vec![], vec![("x".to_string(), TextureEntry::Variable("x".to_string()))]))];
    let (loader, i) = load_chain(&files, "m").unwrap();
    match resolve_texture(loader.models(), i, "x") {
        Err(TextureVarError::Cycle(c)) => assert_eq!(c, vec!["x".to_string(), "x".to_string()]),
        other => panic!("expected a cycle, got {:?}", other),
    }
}

#[test]
fn texture_longer_cycle() {
    let files = vec![(
        "m",
        raw(
            None,
            vec![],
            vec![
                ("a".to_string(), TextureEntry::Variable("b".to_string())),
                ("b".to_string(), TextureEntry::Variable("a".to_string())),
            ],
        ),
    )];
    let (loader, i) = load_chain(&files, "m").unwrap();
    match resolve_texture(loader.models(), i, "a") {
        Err(TextureVarError::Cycle(c)) => {
            assert_eq!(c, vec!["a".to_string(), "b".to_string(), "a".to_string()]);
            assert_eq!(blockbake::text::join_arrows(&c), "a -> b -> a");
        }
        other => panic!("expected a cycle, got {:?}", other),
    }
}

#[test]
fn defaults() {
    assert_eq!(default_weight(), 1);
    assert!(default_shade());
    assert_eq!(default_tint_index(), -1);
}
