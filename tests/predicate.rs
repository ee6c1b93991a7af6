use blockbake::block::{Block, BlockId, Definition};
use blockbake::predicate::{ConditionValue, PartPredicate, PartWhen, PredicateError, VariantPredicate};
use blockbake::state::{ParseIntegerError, PropertyError, PropertyId};

fn button() -> Definition {
    Definition::new(vec![
        ("powered".to_string(), PropertyId::boolean()),
        (
            "facing".to_string(),
            PropertyId::enumeration(vec![
                "north".to_string(),
                "east".to_string(),
                "south".to_string(),
                "west".to_string(),
            ])
            .unwrap(),
        ),
    ])
    .unwrap()
}

fn fence() -> Definition {
    Definition::new(vec![
        ("north".to_string(), PropertyId::boolean()),
        ("east".to_string(), PropertyId::boolean()),
    ])
    .unwrap()
}

#[test]
fn variant_exact_match() {
    let def = button();
    assert_eq!(def.properties[0].offset, 16);
    assert_eq!(def.properties[1].offset, 17);
    let p = VariantPredicate::parse(&def, "powered=true,facing=east").unwrap();
    let hit = def.encode(BlockId(11), &vec![1, 1]).unwrap();
    assert_eq!(hit.as_u32() >> 16, 0b011);
    assert!(p.call(hit));
    for powered in 0..=1u32 {
        for facing in 0..4u32 {
            let b = def.encode(BlockId(11), &vec![powered, facing]).unwrap();
            assert_eq!(p.call(b), powered == 1 && facing == 1);
        }
    }
}

#[test]
fn variant_empty_matches_all() {
    let def = button();
    let p = VariantPredicate::parse(&def, "").unwrap();
    assert_eq!(p, VariantPredicate { mask: 0, value: 0 });
    for facing in 0..4u32 {
        assert!(p.call(def.encode(BlockId(11), &vec![0, facing]).unwrap()));
    }
}

#[test]
fn variant_partial() {
    let def = button();
    let p = VariantPredicate::parse(&def, "facing=west").unwrap();
    assert!(p.call(def.encode(BlockId(11), &vec![0, 3]).unwrap()));
    assert!(p.call(def.encode(BlockId(11), &vec![1, 3]).unwrap()));
    assert!(!p.call(def.encode(BlockId(11), &vec![1, 2]).unwrap()));
}

#[test]
fn variant_errors() {
    let def = button();
    assert!(matches!(VariantPredicate::parse(&def, "powered"), Err(PredicateError::MissingEquals(s)) if s == "powered"));
    assert_eq!(
        VariantPredicate::parse(&def, "lit=true"),
        Err(PredicateError::UnknownProperty("lit".to_string(), vec!["powered".to_string(), "facing".to_string()]))
    );
    assert!(matches!(VariantPredicate::parse(&def, "facing=up"), Err(PredicateError::InvalidValue(s, _)) if s == "facing"));
    assert!(matches!(
        VariantPredicate::parse(&def, "facing=east,facing=west"),
        Err(PredicateError::Duplicate(s)) if s == "facing"
    ));
}

#[test]
fn multipart_dont_care() {
    let def = fence();
    let when = PartWhen::All(vec![("north".to_string(), ConditionValue::Bool(true))]);
    let p = PartPredicate::parse(&def, &when).unwrap();
    let block = |n: u32, e: u32| def.encode(BlockId(4), &vec![n, e]).unwrap();
    assert!(p.call(block(1, 1)));
    assert!(p.call(block(1, 0)));
    assert!(!p.call(block(0, 1)));
    assert!(!p.call(block(0, 0)));
    let bitfield = p.bitfield.as_ref().unwrap();
    // Two boolean properties: four sub-states, one word.
    assert_eq!(bitfield.len(), 1);
    assert_eq!(bitfield[0], 0b1010);
}

#[test]
fn multipart_or_and_alternatives() {
    let def = button();
    let when = PartWhen::Any(vec![
        vec![("facing".to_string(), ConditionValue::Text("north|south".to_string()))],
        vec![
            ("powered".to_string(), ConditionValue::Text("true".to_string())),
            ("facing".to_string(), ConditionValue::Text("east".to_string())),
        ],
    ]);
    let p = PartPredicate::parse(&def, &when).unwrap();
    for powered in 0..=1u32 {
        for facing in 0..4u32 {
            let b = def.encode(BlockId(11), &vec![powered, facing]).unwrap();
            let expected = facing == 0 || facing == 2 || (powered == 1 && facing == 1);
            assert_eq!(p.call(b), expected);
        }
    }
}

#[test]
fn multipart_always() {
    let def = fence();
    let p = PartPredicate::parse(&def, &PartWhen::Always).unwrap();
    assert!(p.bitfield.is_none());
    assert!(p.call(Block::from_id(BlockId(4))));
}

#[test]
fn multipart_errors() {
    let def = fence();
    let when = PartWhen::All(vec![("up".to_string(), ConditionValue::Bool(true))]);
    assert!(matches!(
        PartPredicate::parse(&def, &when),
        Err(PredicateError::UnknownProperty(s, names)) if s == "up" && names == vec!["north".to_string(), "east".to_string()]
    ));
    let when = PartWhen::All(vec![("north".to_string(), ConditionValue::Int(1))]);
    assert!(matches!(PartPredicate::parse(&def, &when), Err(PredicateError::WrongType(s)) if s == "north"));
    let when = PartWhen::All(vec![("north".to_string(), ConditionValue::Text("maybe".to_string()))]);
    assert!(matches!(
        PartPredicate::parse(&def, &when),
        Err(PredicateError::InvalidValue(s, PropertyError::NotABoolean)) if s == "north"
    ));
    let age = Definition::new(vec![("age".to_string(), PropertyId::integer(0, 7).unwrap())]).unwrap();
    let when = PartWhen::All(vec![("age".to_string(), ConditionValue::Int(9))]);
    assert!(matches!(
        PartPredicate::parse(&age, &when),
        Err(PredicateError::InvalidValue(s, PropertyError::Integer(ParseIntegerError::OutOfRange(e)))) if s == "age" && e.value == 9
    ));
    let when = PartWhen::All(vec![("age".to_string(), ConditionValue::Text("1|x".to_string()))]);
    assert!(matches!(
        PartPredicate::parse(&age, &when),
        Err(PredicateError::InvalidValue(s, PropertyError::Integer(ParseIntegerError::NotANumber))) if s == "age"
    ));
}

#[test]
fn multipart_integer_values() {
    let def = Definition::new(vec![("age".to_string(), PropertyId::integer(0, 7).unwrap())]).unwrap();
    let when = PartWhen::All(vec![("age".to_string(), ConditionValue::Int(3))]);
    let p = PartPredicate::parse(&def, &when).unwrap();
    for age in 0..=7u32 {
        assert_eq!(p.call(def.encode(BlockId(1), &vec![age]).unwrap()), age == 3);
    }
}
