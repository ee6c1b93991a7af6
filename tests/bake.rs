use blockbake::bake::{bake, face_textures, BakeError, Registry, Selectors, VariantSelector, WeightedModel, PartSelector};
use blockbake::block::{BlockId, Definition};
use blockbake::direction::Direction;
use blockbake::geometry::{make_quad, pack_tex_coords_exec, turn_direction_exec};
use blockbake::location::Location;
use blockbake::material::{Color, Material, PushReaction};
use blockbake::model::{
    Element, ElementFace, ElementRotation, LoadStep, ModelLoader, Point, RawModel, TextureEntry, Uvs,
};
use blockbake::predicate::{ConditionValue, PartPredicate, PartWhen, VariantPredicate};
use blockbake::state::PropertyId;
use blockbake::texture::{Animation, Info, Rgba, TextureCache, TextureLoadError, Uploader};

struct Sink {
    uploads: Vec<(Info, usize)>,
    fail: bool,
}

impl Uploader for Sink {
    fn upload(&mut self, info: Info, pixels: &Vec<Rgba>) -> Result<(), String> {
        if self.fail {
            return Err("sink is full".to_string());
        }
        self.uploads.push((info, pixels.len()));
        Ok(())
    }
}

fn loc(s: &str) -> Location {
    Location::new(s).unwrap()
}

fn png_rgba(size: u32) -> Vec<u8> {
    let mut out = Vec::new();
    {
        let mut enc = png::Encoder::new(&mut out, size, size);
        enc.set_color(png::ColorType::Rgba);
        enc.set_depth(png::BitDepth::Eight);
        let mut w = enc.write_header().unwrap();
        w.write_image_data(&vec![200u8; (size * size * 4) as usize]).unwrap();
    }
    out
}

fn up_face_model(cullface: Option<Direction>) -> RawModel {
    RawModel {
        parent_location: None,
        ambient_occlusion: None,
        textures: vec![("all".to_string(), TextureEntry::Location(loc("block/stone")))],
        elements: vec![Element {
            from: Point { x: 0, y: 0, z: 0 },
            to: Point { x: 16384, y: 16384, z: 16384 },
            rotation: None,
            shade: true,
            faces: vec![(
                Direction::Up,
                ElementFace {
                    uvs: Some(Uvs { u0: 0, v0: 0, u1: 16384, v1: 16384 }),
                    texture: "all".to_string(),
                    cullface,
                    tint_index: -1,
                },
            )],
        }],
    }
}

fn load_single(raw: RawModel) -> (ModelLoader, usize) {
    let mut loader = ModelLoader::new();
    match loader.request(loc("block/cube"), 0) {
        LoadStep::Need(_, p) => match loader.supply(p, raw).unwrap() {
            LoadStep::Done(i) => (loader, i),
            LoadStep::Need(..) => panic!("no parent expected"),
        },
        LoadStep::Done(_) => panic!("empty cache"),
    }
}

#[test]
fn end_to_end_single_up_face() {
    let (loader, i) = load_single(up_face_model(None));
    let ms = loader.models();
    let locations = face_textures(ms, i).unwrap();
    assert_eq!(locations.len(), 1);
    assert_eq!(locations[0].as_str(), "block/stone");
    let mut cache = TextureCache::new();
    let mut sink = Sink { uploads: vec![], fail: false };
    let png = png_rgba(16);
    let info = cache.load(&mut sink, &locations[0], &png, None).unwrap();
    assert_eq!(info, Info { width: 16, height: 16, index: 0 });
    assert_eq!(sink.uploads, vec![(info, 256)]);
    let faces = bake(ms, i, 0, 0, &vec![info.index]).unwrap();
    assert_eq!(faces.unculled.len(), 1);
    assert!(faces.culled.iter().all(|c| c.is_empty()));
    let q = faces.unculled[0];
    assert_eq!(q.direction, Direction::Up);
    let uv: Vec<(u32, u32)> = q.vertices.iter().map(|v| (v.tex_coords >> 16, v.tex_coords & 0xFFFF)).collect();
    assert_eq!(uv, vec![(0, 0), (0, 65535), (65535, 65535), (65535, 0)]);
    assert_eq!(q.vertices[0].position, Point { x: 0, y: 16384, z: 0 });
    assert_eq!(q.vertices[2].position, Point { x: 16384, y: 16384, z: 16384 });
    assert!(q.vertices.iter().all(|v| v.tex_index == 0));
    // The blockstate selects the model for every state of the block.
    let def = Definition::new(vec![]).unwrap();
    let when = VariantPredicate::parse(&def, "").unwrap();
    let mut reg = Registry::new();
    reg.push(Selectors::Variants(vec![VariantSelector { when, apply: vec![WeightedModel { weight: 1, faces } ] }]));
    let shown = reg.faces_of(def.encode(BlockId(0), &vec![]).unwrap());
    assert_eq!(shown.unculled.len(), 1);
    assert_eq!(shown.unculled[0].vertices[1].tex_coords, 65535);
}

#[test]
fn textures_upload_once() {
    let mut cache = TextureCache::new();
    let mut sink = Sink { uploads: vec![], fail: false };
    let png = png_rgba(16);
    let a = cache.load(&mut sink, &loc("block/stone"), &png, None).unwrap();
    let b = cache.load(&mut sink, &loc("minecraft:block/stone"), &png, None).unwrap();
    let c = cache.load(&mut sink, &loc("block/dirt"), &png, None).unwrap();
    assert_eq!(a, b);
    assert_eq!((a.index, c.index), (0, 1));
    assert_eq!(sink.uploads.len(), 2);
}

#[test]
fn texture_load_errors() {
    let mut cache = TextureCache::new();
    let mut sink = Sink { uploads: vec![], fail: true };
    let png = png_rgba(16);
    assert_eq!(
        cache.load(&mut sink, &loc("block/stone"), &png, None),
        Err(TextureLoadError::Upload("sink is full".to_string()))
    );
    sink.fail = false;
    assert!(matches!(
        cache.load(&mut sink, &loc("block/stone"), &png, Some(&Animation { interpolate: false, frametime: 1, frames: vec![1] })),
        Err(TextureLoadError::Texture(blockbake::texture::TextureError::FrameOutOfRange(1, 1)))
    ));
    assert_eq!(cache.find(&loc("block/stone")), None);
}

#[test]
fn culled_face_is_filed_under_rotated_direction() {
    let (loader, i) = load_single(up_face_model(Some(Direction::North)));
    let ms = loader.models();
    let faces = bake(ms, i, 0, 90, &vec![0]).unwrap();
    assert!(faces.unculled.is_empty());
    let d = turn_direction_exec(Direction::North, 0, 1);
    assert_eq!(d, Direction::West);
    assert_eq!(faces.culled[4].len(), 1);
    assert!(matches!(bake(ms, i, 45, 0, &vec![0]), Err(BakeError::BadRotation(45))));
    assert!(matches!(bake(ms, i, 0, 0, &vec![]), Err(BakeError::TextureCount)));
}

#[test]
fn quarter_turns() {
    assert_eq!(turn_direction_exec(Direction::Up, 1, 0), Direction::South);
    assert_eq!(turn_direction_exec(Direction::North, 0, 2), Direction::South);
    assert_eq!(turn_direction_exec(Direction::East, 0, 3), Direction::South);
    assert_eq!(turn_direction_exec(Direction::Down, 0, 1), Direction::Down);
}

#[test]
fn derived_uvs_and_element_rotation() {
    let e = Element {
        from: Point { x: 0, y: 0, z: 0 },
        to: Point { x: 16384, y: 8192, z: 16384 },
        rotation: Some(ElementRotation { origin: Point { x: 8192, y: 8192, z: 8192 }, axis: 1, angle: 0, rescale: false }),
        shade: false,
        faces: vec![],
    };
    let face = ElementFace { uvs: None, texture: "all".to_string(), cullface: None, tint_index: 2 };
    let q = make_quad(&e, Direction::Up, &face, 0, 0, 7);
    assert_eq!(q.tint_index, 2);
    assert!(!q.shade);
    assert_eq!(q.vertices[0].position, Point { x: 0, y: 8192, z: 0 });
    assert_eq!(q.vertices[2].tex_coords, (65535 << 16) | 65535);
    assert_eq!(pack_tex_coords_exec(8192, 16384), (32767 << 16) | 65535);
    assert_eq!(pack_tex_coords_exec(-5, 0), 0);
    let r45 = Element {
        rotation: Some(ElementRotation { origin: Point { x: 0, y: 0, z: 0 }, axis: 1, angle: 450, rescale: false }),
        ..e
    };
    let q = make_quad(&r45, Direction::Up, &face, 0, 0, 7);
    // (16384, 8192, 0) turned 45 degrees about y through the origin.
    assert_eq!(q.vertices[3].position, Point { x: 11585, y: 8192, z: -11585 });
}

#[test]
fn registry_faces_of() {
    let (loader, i) = load_single(up_face_model(None));
    let faces = bake(loader.models(), i, 0, 0, &vec![3]).unwrap();
    let def = Definition::new(vec![("lit".to_string(), PropertyId::boolean())]).unwrap();
    let lit = VariantPredicate::parse(&def, "lit=true").unwrap();
    let mut reg = Registry::new();
    reg.push(Selectors::Variants(vec![]));
    reg.push(Selectors::Variants(vec![VariantSelector {
        when: lit,
        apply: vec![WeightedModel { weight: 1, faces: faces.clone() }],
    }]));
    let on = def.encode(BlockId(1), &vec![1]).unwrap();
    let off = def.encode(BlockId(1), &vec![0]).unwrap();
    assert_eq!(reg.faces_of(on).unculled.len(), 1);
    assert_eq!(reg.faces_of(off).unculled.len(), 0);
    let part = |v: bool| PartSelector {
        when: PartPredicate::parse(&def, &PartWhen::All(vec![("lit".to_string(), ConditionValue::Bool(v))])).unwrap(),
        apply: vec![WeightedModel { weight: 1, faces: faces.clone() }],
    };
    let always = PartSelector {
        when: PartPredicate::parse(&def, &PartWhen::Always).unwrap(),
        apply: vec![WeightedModel { weight: 1, faces: faces.clone() }],
    };
    reg.push(Selectors::Multipart(vec![part(true), always, part(false)]));
    let on = def.encode(BlockId(2), &vec![1]).unwrap();
    assert_eq!(reg.faces_of(on).unculled.len(), 2);
    assert_eq!(reg.faces_of(blockbake::block::Block::from_id(BlockId(9))).unculled.len(), 0);
}

#[test]
fn material_and_color() {
    let m = Material::new(Color::Plant).no_collider().non_solid_blocking().non_solid().destroy_on_push();
    assert_eq!(m.color.rgb(), 0x007c00);
    assert!(!m.blocks_motion && !m.solid && !m.solid_blocking);
    assert_eq!(m.push_reaction, PushReaction::Destroy);
    let w = Material::new(Color::Water).replaceable().liquid().flammable().not_pushable();
    assert!(w.replaceable && w.liquid && w.flammable && w.solid);
    assert_eq!(w.push_reaction, PushReaction::Block);
    assert_eq!(Color::NoColor.rgb(), 0);
    assert_eq!(Color::GlowLichen.rgb(), 0x7fa796);
}

#[test]
fn directions() {
    assert_eq!(Direction::from_unit_vec((0, 0, -1)), Some(Direction::North));
    assert_eq!(Direction::from_unit_vec((1, 1, 0)), None);
    assert_eq!(Direction::West.to_unit_vec(), (-1, 0, 0));
    assert_eq!(Direction::South.to_cardinal_unit_vec(), Some((0, 1)));
    assert_eq!(Direction::Up.to_cardinal_unit_vec(), None);
}

#[test]
fn element_out_of_range() {
    let mut raw = up_face_model(None);
    raw.elements[0].to = Point { x: 40000, y: 16384, z: 16384 };
    let (loader, i) = load_single(raw);
    assert!(matches!(bake(loader.models(), i, 0, 0, &vec![0]), Err(BakeError::BadElement(0))));
    let mut raw = up_face_model(None);
    raw.elements[0].rotation =
        Some(ElementRotation { origin: Point { x: 0, y: 0, z: 0 }, axis: 1, angle: 300, rescale: false });
    let (loader, i) = load_single(raw);
    assert!(matches!(bake(loader.models(), i, 0, 0, &vec![0]), Err(BakeError::BadElement(0))));
}
