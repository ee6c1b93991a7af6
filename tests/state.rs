use blockbake::bits::width_of;
use blockbake::block::{Block, BlockId, Definition, StateError};
use blockbake::state::{Integer, OutOfRangeError, ParseIntegerError, PropertyError, PropertyId, PropertyType};

fn facing() -> PropertyId {
    PropertyId::enumeration(vec![
        "north".to_string(),
        "east".to_string(),
        "south".to_string(),
        "west".to_string(),
    ])
    .unwrap()
}

fn door() -> Definition {
    Definition::new(vec![
        ("powered".to_string(), PropertyId::boolean()),
        ("facing".to_string(), facing()),
        ("age".to_string(), PropertyId::integer(1, 7).unwrap()),
    ])
    .unwrap()
}

#[test]
fn bit_widths() {
    assert_eq!(width_of(0), 0);
    assert_eq!(width_of(1), 1);
    assert_eq!(width_of(3), 2);
    assert_eq!(width_of(4), 3);
    assert_eq!(width_of(15), 4);
    assert_eq!(width_of(24), 5);
    assert_eq!(width_of(0xFFFF), 16);
}

#[test]
fn property_bits() {
    assert_eq!(PropertyId::boolean().bits(), 1);
    assert_eq!(facing().bits(), 2);
    assert_eq!(PropertyId::integer(0, 15).unwrap().bits(), 4);
    assert_eq!(PropertyId::integer(1, 4).unwrap().bits(), 2);
    assert_eq!(PropertyId::integer(0, 24).unwrap().bits(), 5);
    assert!(PropertyId::integer(3, 3).is_none());
    assert!(PropertyId::enumeration(vec!["only".to_string()]).is_none());
}

#[test]
fn property_parsing() {
    let b = PropertyId::boolean();
    assert_eq!(b.ty, PropertyType::Boolean);
    assert_eq!(b.parse("true"), Ok(1));
    assert_eq!(b.parse("false"), Ok(0));
    assert_eq!(b.parse("yes"), Err(PropertyError::NotABoolean));
    let i = PropertyId::integer(1, 7).unwrap();
    assert_eq!(i.parse("1"), Ok(0));
    assert_eq!(i.parse("7"), Ok(6));
    assert_eq!(
        i.parse("8"),
        Err(PropertyError::Integer(ParseIntegerError::OutOfRange(OutOfRangeError { value: 8, min: 1, max: 7 })))
    );
    assert_eq!(i.parse("x"), Err(PropertyError::Integer(ParseIntegerError::NotANumber)));
    assert_eq!(i.parse(""), Err(PropertyError::Integer(ParseIntegerError::NotANumber)));
    assert_eq!(i.parse("99999999999"), Err(PropertyError::Integer(ParseIntegerError::NotANumber)));
    let f = facing();
    assert_eq!(f.parse("south"), Ok(2));
    assert_eq!(
        f.parse("up"),
        Err(PropertyError::UnknownVariant(vec![
            "north".to_string(),
            "east".to_string(),
            "south".to_string(),
            "west".to_string(),
        ]))
    );
}

#[test]
fn integer_range() {
    let mut n = Integer::new(3, 1, 4).unwrap();
    assert_eq!(n.get(), 3);
    assert_eq!(n.set(4), Ok(()));
    assert_eq!(n.get(), 4);
    assert_eq!(n.set(5), Err(OutOfRangeError { value: 5, min: 1, max: 4 }));
    assert_eq!(n.get(), 4);
    assert_eq!(Integer::new(0, 1, 4), Err(OutOfRangeError { value: 0, min: 1, max: 4 }));
}

#[test]
fn layout_offsets() {
    let def = door();
    let offsets: Vec<u32> = def.properties.iter().map(|p| p.offset).collect();
    assert_eq!(offsets, vec![16, 17, 19]);
    assert_eq!(def.property_names(), vec!["powered".to_string(), "facing".to_string(), "age".to_string()]);
    assert_eq!(def.index_of("age"), Some(2));
    assert_eq!(def.index_of("open"), None);
}

#[test]
fn layout_too_wide() {
    let wide = PropertyId::integer(0, 0xFFFF).unwrap();
    let r = Definition::new(vec![("a".to_string(), wide.clone()), ("b".to_string(), PropertyId::boolean())]);
    assert!(matches!(r, Err(StateError::TooWide)));
    let exact = Definition::new(vec![("a".to_string(), wide)]);
    assert!(exact.is_ok());
}

#[test]
fn encode_decode_round_trip() {
    let def = door();
    for powered in 0..=1u32 {
        for face in 0..4u32 {
            for age in 1..=7u32 {
                let values = vec![powered, face, age];
                let block = def.encode(BlockId(42), &values).unwrap();
                assert_eq!(block.id(), BlockId(42));
                assert_eq!(def.decode(block), Some(values));
            }
        }
    }
}

#[test]
fn encode_exact_word() {
    let def = door();
    let block = def.encode(BlockId(7), &vec![1, 3, 7]).unwrap();
    assert_eq!(block.as_u32(), 7 | (1 << 16) | (3 << 17) | (6 << 19));
}

#[test]
fn encode_rejects() {
    let def = door();
    assert!(matches!(def.encode(BlockId(1), &vec![1, 0]), Err(StateError::WrongCount)));
    assert!(matches!(def.encode(BlockId(1), &vec![1, 0, 0]), Err(StateError::OutOfRange(2))));
    assert!(matches!(def.encode(BlockId(1), &vec![2, 0, 1]), Err(StateError::OutOfRange(0))));
}

#[test]
fn unmentioned_properties_decode_to_min() {
    let def = door();
    let block = Block::from_id(BlockId(3));
    assert_eq!(def.decode(block), Some(vec![0, 0, 1]));
    let block = def
        .encode_text(BlockId(3), &vec![("facing".to_string(), "west".to_string())])
        .unwrap();
    assert_eq!(def.decode(block), Some(vec![0, 3, 1]));
}

#[test]
fn encode_text_values() {
    let def = door();
    let pairs = vec![
        ("age".to_string(), "5".to_string()),
        ("powered".to_string(), "true".to_string()),
        ("facing".to_string(), "east".to_string()),
    ];
    let block = def.encode_text(BlockId(9), &pairs).unwrap();
    assert_eq!(def.decode(block), Some(vec![1, 1, 5]));
    let bad = vec![("open".to_string(), "true".to_string())];
    assert!(matches!(def.encode_text(BlockId(9), &bad), Err(StateError::UnknownProperty(n)) if n == "open"));
    let bad = vec![("age".to_string(), "0".to_string())];
    assert!(matches!(
        def.encode_text(BlockId(9), &bad),
        Err(StateError::InvalidValue(n, PropertyError::Integer(ParseIntegerError::OutOfRange(_)))) if n == "age"
    ));
}

#[test]
fn decode_rejects_out_of_range_field() {
    let def = door();
    let mut block = Block::from_id(BlockId(1));
    // age is stored in three bits; 7 would be raw value 8, outside [1, 7].
    block.set_property(7, 3, 19).unwrap();
    assert_eq!(def.decode(block), None);
}

#[test]
fn set_property_keeps_other_bits() {
    let mut block = Block::from_id(BlockId(0xFFFF));
    block.set_property(0xFFFF, 16, 16).unwrap();
    assert_eq!(block.as_u32(), u32::MAX);
    // All bits set except the target field [20, 23).
    let mut block = Block::from_id(BlockId(0xFFFF));
    block.set_property(0xFFFF & !(0b111 << 4), 16, 16).unwrap();
    let before = block.as_u32();
    assert_eq!(before, u32::MAX & !(0b111 << 20));
    block.set_property(0b101, 3, 20).unwrap();
    let after = block.as_u32();
    assert_eq!(after & !(0b111 << 20), before & !(0b111 << 20));
    assert_eq!((after >> 20) & 0b111, 0b101);
}

#[test]
fn set_property_checks() {
    let mut block = Block::from_id(BlockId(2));
    assert!(matches!(block.set_property(4, 2, 16), Err(StateError::FieldTooWide)));
    assert!(matches!(block.set_property(1, 2, 31), Err(StateError::SpanOutOfWord)));
    assert_eq!(block.as_u32(), 2);
}

use blockbake::kinds::{BlockStateError, BlockTable, TableError};
use blockbake::location::{LocationPart, ParseLocationError};

fn table() -> BlockTable {
    let mut t = BlockTable::new();
    assert_eq!(t.to_location(BlockId(0)), "air");
    assert_eq!(t.push("oak_door".to_string(), door()), Ok(BlockId(1)));
    t
}

#[test]
fn block_table_lookup() {
    let mut t = table();
    assert_eq!(t.len(), 2);
    assert_eq!(t.from_numeric(1), Some(BlockId(1)));
    assert_eq!(t.from_numeric(2), None);
    assert_eq!(t.from_location("oak_door"), Some(BlockId(1)));
    assert_eq!(t.from_location("stone"), None);
    assert_eq!(t.to_location(BlockId(0)), "air");
    for k in 0..2u16 {
        assert_eq!(t.from_location(t.to_location(BlockId(k))), Some(BlockId(k)));
    }
    assert_eq!(t.state_definition(BlockId(1)).properties.len(), 3);
    assert_eq!(t.push("air".to_string(), Definition::new(vec![]).unwrap()), Err(TableError::Duplicate("air".to_string())));
}

#[test]
fn block_from_saved_state() {
    let t = table();
    let pairs = vec![
        ("facing".to_string(), "south".to_string()),
        ("age".to_string(), "2".to_string()),
        ("powered".to_string(), "false".to_string()),
        ("extra".to_string(), "1".to_string()),
    ];
    let b = t.block_from_state("minecraft:oak_door", &pairs[..3].to_vec()).unwrap();
    assert_eq!(b.id(), BlockId(1));
    assert_eq!(door().decode(b), Some(vec![0, 2, 2]));
    assert_eq!(t.block_from_state("air", &vec![]).unwrap().as_u32(), 0);
    // A property that no pair names keeps its minimum.
    let partial = t.block_from_state("oak_door", &pairs[..2].to_vec()).unwrap();
    assert_eq!(door().decode(partial), Some(vec![0, 2, 2]));
    let only_id = t.block_from_state("oak_door", &vec![]).unwrap();
    assert_eq!(only_id.as_u32(), 1);
    assert_eq!(door().decode(only_id), Some(vec![0, 0, 1]));
    // A pair naming no property of the kind is an error.
    assert_eq!(t.block_from_state("oak_door", &pairs), Err(BlockStateError::UnknownProperty("extra".to_string())));
    assert_eq!(t.block_from_state("stone", &vec![]), Err(BlockStateError::UnknownBlock("stone".to_string())));
    assert_eq!(
        t.block_from_state(":air", &vec![]),
        Err(BlockStateError::Location(ParseLocationError::empty(LocationPart::Namespace)))
    );
    let bad = vec![
        ("facing".to_string(), "up".to_string()),
        ("age".to_string(), "2".to_string()),
        ("powered".to_string(), "false".to_string()),
    ];
    assert_eq!(
        t.block_from_state("oak_door", &bad),
        Err(BlockStateError::InvalidValue("facing".to_string(), PropertyError::UnknownVariant(f_names())))
    );
}

#[test]
fn canonical_text() {
    let b = PropertyId::boolean();
    assert_eq!(b.to_text(1), "true");
    assert_eq!(b.to_text(0), "false");
    let i = PropertyId::integer(1, 25).unwrap();
    assert_eq!(i.to_text(0), "1");
    assert_eq!(i.to_text(24), "25");
    assert_eq!(PropertyId::integer(100, 200).unwrap().to_text(7), "107");
    let f = facing();
    assert_eq!(f.to_text(3), "west");
    for v in 0..4 {
        assert_eq!(f.parse(&f.to_text(v)), Ok(v));
    }
    for v in 0..25 {
        assert_eq!(i.parse(&i.to_text(v)), Ok(v));
    }
    assert!(PropertyId::enumeration(vec!["a".to_string(), "a".to_string()]).is_none());
}

#[test]
fn layout_rejects_repeated_name() {
    let r = Definition::new(vec![("lit".to_string(), PropertyId::boolean()), ("lit".to_string(), PropertyId::boolean())]);
    assert!(matches!(r, Err(StateError::DuplicateName(1))));
}

#[test]
fn layout_rejects_malformed_property() {
    let bad = PropertyId { ty: PropertyType::Enum, min: 0, max: 5, variants: vec!["a".to_string(), "b".to_string()] };
    let r = Definition::new(vec![("ok".to_string(), PropertyId::boolean()), ("bad".to_string(), bad)]);
    assert!(matches!(r, Err(StateError::InvalidProperty(1))));
}

fn f_names() -> Vec<String> {
    vec!["north".to_string(), "east".to_string(), "south".to_string(), "west".to_string()]
}
