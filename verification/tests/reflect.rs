use shapely::shape::{Def, FieldDef, Layout, OpTable, Shape, SkipRule, StructType, VariantDef};
use shapely::value::{MapEntry, Value};
use shapely::peek::{HasFields, Peek, PeekStruct};
use shapely::slot::{Partial, Slot};
use shapely::ops::{default_value, value_cmp, value_eq, Order};
use shapely::FieldError;

fn scalar_ops(has_destroy: bool, has_default: bool) -> OpTable {
    OpTable {
        has_eq: true,
        has_cmp: true,
        has_hash: true,
        has_debug: true,
        has_destroy,
        has_default,
    }
}

fn u64_shape() -> Shape {
    Shape {
        name: String::from("u64"),
        layout: Layout { size: 8, align: 8 },
        ops: scalar_ops(false, true),
        def: Def::Scalar,
    }
}

/// A scalar with a destructor and no default: it must be filled, and
/// dropping it counts as one destroy operation.
fn tracked_shape() -> Shape {
    Shape {
        name: String::from("Tracked"),
        layout: Layout { size: 8, align: 8 },
        ops: scalar_ops(true, false),
        def: Def::Scalar,
    }
}

fn field(name: &str, offset: usize, shape: Shape) -> FieldDef {
    FieldDef { name: String::from(name), offset, flatten: false, skip: SkipRule::Never, shape }
}

fn struct_ops(has_default: bool) -> OpTable {
    OpTable {
        has_eq: true,
        has_cmp: false,
        has_hash: true,
        has_debug: true,
        has_destroy: true,
        has_default,
    }
}

/// struct Pair { a: u64, b: Tracked }
fn pair_shape() -> Shape {
    Shape {
        name: String::from("Pair"),
        layout: Layout { size: 16, align: 8 },
        ops: struct_ops(false),
        def: Def::StructKind(StructType {
            fields: vec![field("a", 0, u64_shape()), field("b", 8, tracked_shape())],
        }),
    }
}

fn pair_value(a: u64, b: u64) -> Value {
    Value::StructVal(vec![Value::Scalar(a), Value::Scalar(b)])
}

fn list_of_u64_shape() -> Shape {
    Shape {
        name: String::from("List"),
        layout: Layout { size: 24, align: 8 },
        ops: OpTable {
            has_eq: true,
            has_cmp: true,
            has_hash: true,
            has_debug: true,
            has_destroy: true,
            has_default: true,
        },
        def: Def::ListKind(Box::new(u64_shape())),
    }
}

fn list_value(items: &[u64]) -> Value {
    Value::ListVal(items.iter().map(|n| Value::Scalar(*n)).collect())
}

fn map_of_tracked_shape() -> Shape {
    Shape {
        name: String::from("Dict"),
        layout: Layout { size: 48, align: 8 },
        ops: OpTable {
            has_eq: true,
            has_cmp: false,
            has_hash: false,
            has_debug: true,
            has_destroy: true,
            has_default: true,
        },
        def: Def::MapKind(Box::new(tracked_shape())),
    }
}

#[test]
fn field_read_by_index_and_bounds() {
    let shape = pair_shape();
    let value = pair_value(3, 4);
    let peek = Peek::new(&value, &shape);
    let ps: PeekStruct = peek.into_struct().unwrap();
    assert_eq!(ps.field_count(), 2);
    assert_eq!(ps.ty().fields.len(), 2);
    let f0 = ps.field(0).unwrap();
    assert!(matches!(f0.value, Value::Scalar(3)));
    assert_eq!(f0.shape.name, "u64");
    match ps.field(2) {
        Err(FieldError::IndexOutOfBounds { index, bound }) => {
            assert_eq!(index, 2);
            assert_eq!(bound, 2);
        },
        _ => panic!("expected an index error"),
    }
}

#[test]
fn field_read_by_name() {
    let shape = pair_shape();
    let value = pair_value(3, 4);
    let peek = Peek::new(&value, &shape);
    let ps = peek.into_struct().unwrap();
    let fb = ps.field_by_name(&String::from("b")).unwrap();
    assert!(matches!(fb.value, Value::Scalar(4)));
    assert!(matches!(
        ps.field_by_name(&String::from("zzz")),
        Err(FieldError::NoSuchField)
    ));
}

#[test]
fn fields_lists_every_field() {
    let shape = pair_shape();
    let value = pair_value(3, 4);
    let peek = Peek::new(&value, &shape);
    let ps = peek.into_struct().unwrap();
    let all = ps.fields();
    assert_eq!(all.len(), 2);
    assert_eq!(all[0].0.name, "a");
    assert_eq!(all[1].0.name, "b");
    assert!(matches!(all[1].1.value, Value::Scalar(4)));
}

#[test]
fn field_round_trip_reproduces_equal_value() {
    let shape = pair_shape();
    let value = pair_value(31, 42);
    let peek = Peek::new(&value, &shape);
    let ps = peek.into_struct().unwrap();

    let mut builder = Partial::allocate(shape.duplicate());
    for i in 0..ps.field_count() {
        let fp = ps.field(i).unwrap();
        let slot = builder.slot_for_field(i).unwrap();
        slot.fill(&mut builder, fp.value.duplicate(), fp.shape).unwrap();
    }
    let rebuilt = builder.build().unwrap();
    assert!(value_eq(&value, &rebuilt, &shape));
}

#[test]
fn build_fails_naming_first_unfilled_required_field() {
    let shape = pair_shape();
    let mut builder = Partial::allocate(shape);
    let slot = builder.slot_for_field(0).unwrap();
    slot.fill(&mut builder, Value::Scalar(1), &u64_shape()).unwrap();
    // "a" is defaultable; "b" is required and unfilled.
    match builder.build() {
        Err(FieldError::UninitializedField(name)) => assert_eq!(name, "b"),
        _ => panic!("expected an uninitialized-field error"),
    }
}

#[test]
fn build_succeeds_once_required_fields_are_filled() {
    let shape = pair_shape();
    let mut builder = Partial::allocate(shape);
    let sa = builder.slot_for_field_named(&String::from("a")).unwrap();
    sa.fill(&mut builder, Value::Scalar(7), &u64_shape()).unwrap();
    let sb = builder.slot_for_field_named(&String::from("b")).unwrap();
    sb.fill(&mut builder, Value::Scalar(8), &tracked_shape()).unwrap();
    let built = builder.build().unwrap();
    let expected = pair_value(7, 8);
    assert!(value_eq(&expected, &built, &pair_shape()));
}

#[test]
fn unfilled_defaultable_field_gets_its_default() {
    let shape = pair_shape();
    let mut builder = Partial::allocate(shape);
    // Fill only the required field "b"; "a" defaults to zero.
    let sb = builder.slot_for_field(1).unwrap();
    sb.fill(&mut builder, Value::Scalar(9), &tracked_shape()).unwrap();
    let built = builder.build().unwrap();
    let expected = pair_value(0, 9);
    assert!(value_eq(&expected, &built, &pair_shape()));
}

#[test]
fn refilling_a_slot_destroys_the_first_value_exactly_once() {
    let shape = pair_shape();
    let mut builder = Partial::allocate(shape);
    let first = builder.slot_for_field(1).unwrap();
    first.fill(&mut builder, Value::Scalar(1), &tracked_shape()).unwrap();
    assert_eq!(builder.destroy_count, 0);
    assert_eq!(builder.write_count, 1);
    let again = builder.slot_for_field(1).unwrap();
    again.fill(&mut builder, Value::Scalar(2), &tracked_shape()).unwrap();
    assert_eq!(builder.destroy_count, 1);
    assert_eq!(builder.write_count, 2);
}

#[test]
fn abandoning_destroys_exactly_the_filled_destroyable_fields() {
    let shape = pair_shape();
    let mut builder = Partial::allocate(shape);
    // "a" (no destroy operation) and "b" (destroy operation) both filled:
    let sa = builder.slot_for_field(0).unwrap();
    sa.fill(&mut builder, Value::Scalar(1), &u64_shape()).unwrap();
    let sb = builder.slot_for_field(1).unwrap();
    sb.fill(&mut builder, Value::Scalar(2), &tracked_shape()).unwrap();
    assert_eq!(builder.abandon(), 1);

    let mut empty = Partial::allocate(pair_shape());
    assert_eq!(empty.abandon(), 0);

    empty = Partial::allocate(pair_shape());
    let sb = empty.slot_for_field(1).unwrap();
    sb.fill(&mut empty, Value::Scalar(2), &tracked_shape()).unwrap();
    assert_eq!(empty.abandon(), 1);
}

#[test]
fn zero_size_field_writes_nothing_but_is_initialized() {
    let shape = Shape {
        name: String::from("HasUnit"),
        layout: Layout { size: 8, align: 8 },
        ops: struct_ops(false),
        def: Def::StructKind(StructType {
            fields: vec![
                // the zero-size field shares offset 0 with the scalar
                FieldDef {
                    name: String::from("tag"),
                    offset: 0,
                    flatten: false,
                    skip: SkipRule::Never,
                    shape: Shape {
                        name: String::from("Unit"),
                        layout: Layout { size: 0, align: 1 },
                        ops: scalar_ops(false, false),
                        def: Def::Scalar,
                    },
                },
                field("n", 0, tracked_shape()),
            ],
        }),
    };
    let mut builder = Partial::allocate(shape);
    let s0 = builder.slot_for_field(0).unwrap();
    s0.fill(
        &mut builder,
        Value::Scalar(0),
        &Shape {
            name: String::from("Unit"),
            layout: Layout { size: 0, align: 1 },
            ops: scalar_ops(false, false),
            def: Def::Scalar,
        },
    )
    .unwrap();
    assert_eq!(builder.write_count, 0);
    assert_eq!(builder.destroy_count, 0);
    let s1 = builder.slot_for_field(1).unwrap();
    s1.fill(&mut builder, Value::Scalar(5), &tracked_shape()).unwrap();
    assert_eq!(builder.write_count, 1);
    // both slots initialized: the build succeeds
    assert!(builder.build().is_ok());
}

#[test]
fn filling_with_the_wrong_descriptor_is_reported() {
    let shape = pair_shape();
    let mut builder = Partial::allocate(shape);
    let slot = builder.slot_for_field(0).unwrap();
    match slot.fill(&mut builder, Value::Scalar(1), &tracked_shape()) {
        Err(FieldError::ShapeMismatch { expected, actual }) => {
            assert_eq!(expected, "u64");
            assert_eq!(actual, "Tracked");
        },
        _ => panic!("expected a descriptor mismatch"),
    }
    assert_eq!(builder.write_count, 0);
    assert_eq!(builder.destroy_count, 0);
}

#[test]
fn unknown_slot_lookups_fail() {
    let builder = Partial::allocate(pair_shape());
    assert!(matches!(builder.slot_for_field(9), Err(FieldError::NoSuchField)));
    assert!(matches!(
        builder.slot_for_field_named(&String::from("zzz")),
        Err(FieldError::NoSuchField)
    ));
}

fn flatten_enum_shape() -> Shape {
    // struct Outer { a: u64, #[flatten] e: Choice }
    // enum Choice { On { payload: u64 } }
    let choice = Shape {
        name: String::from("Choice"),
        layout: Layout { size: 16, align: 8 },
        ops: OpTable {
            has_eq: true,
            has_cmp: false,
            has_hash: false,
            has_debug: true,
            has_destroy: false,
            has_default: false,
        },
        def: Def::EnumKind(vec![VariantDef {
            name: String::from("On"),
            fields: vec![field("payload", 0, u64_shape())],
        }]),
    };
    Shape {
        name: String::from("Outer"),
        layout: Layout { size: 24, align: 8 },
        ops: struct_ops(false),
        def: Def::StructKind(StructType {
            fields: vec![
                field("a", 0, u64_shape()),
                FieldDef {
                    name: String::from("e"),
                    offset: 8,
                    flatten: true,
                    skip: SkipRule::Never,
                    shape: choice,
                },
            ],
        }),
    }
}

#[test]
fn flattened_enum_field_is_emitted_under_its_variant_name() {
    let shape = flatten_enum_shape();
    let value = Value::StructVal(vec![
        Value::Scalar(1),
        Value::EnumVal(0, vec![Value::Scalar(7)]),
    ]);
    let peek = Peek::new(&value, &shape);
    let ps = peek.into_struct().unwrap();
    let emitted = ps.fields_for_serialize().unwrap();
    assert_eq!(emitted.len(), 2);
    assert_eq!(emitted[0].name, "a");
    assert!(!emitted[0].flattened);
    assert!(matches!(emitted[0].peek.value, Value::Scalar(1)));
    assert_eq!(emitted[1].name, "On");
    assert!(emitted[1].flattened);
    assert!(matches!(emitted[1].peek.value, Value::EnumVal(0, _)));
}

#[test]
fn flattened_struct_field_is_spliced_in_place() {
    // struct Outer { a: u64, #[flatten] inner: Inner { x: u64, y: u64 }, z: u64 }
    let inner = Shape {
        name: String::from("Inner"),
        layout: Layout { size: 16, align: 8 },
        ops: struct_ops(false),
        def: Def::StructKind(StructType {
            fields: vec![field("x", 0, u64_shape()), field("y", 8, u64_shape())],
        }),
    };
    let outer = Shape {
        name: String::from("Outer"),
        layout: Layout { size: 32, align: 8 },
        ops: struct_ops(false),
        def: Def::StructKind(StructType {
            fields: vec![
                field("a", 0, u64_shape()),
                FieldDef {
                    name: String::from("inner"),
                    offset: 8,
                    flatten: true,
                    skip: SkipRule::Never,
                    shape: inner,
                },
                field("z", 24, u64_shape()),
            ],
        }),
    };
    let value = Value::StructVal(vec![
        Value::Scalar(1),
        Value::StructVal(vec![Value::Scalar(2), Value::Scalar(3)]),
        Value::Scalar(4),
    ]);
    let peek = Peek::new(&value, &outer);
    let ps = peek.into_struct().unwrap();
    let emitted = ps.fields_for_serialize().unwrap();
    let names: Vec<&str> = emitted.iter().map(|e| e.name.as_str()).collect();
    assert_eq!(names, vec!["a", "x", "y", "z"]);
    assert!(matches!(emitted[2].peek.value, Value::Scalar(3)));
}

#[test]
fn flatten_on_a_scalar_is_a_reported_configuration_error() {
    let shape = Shape {
        name: String::from("Bad"),
        layout: Layout { size: 8, align: 8 },
        ops: struct_ops(false),
        def: Def::StructKind(StructType {
            fields: vec![FieldDef {
                name: String::from("s"),
                offset: 0,
                flatten: true,
                skip: SkipRule::Never,
                shape: u64_shape(),
            }],
        }),
    };
    let value = Value::StructVal(vec![Value::Scalar(1)]);
    let peek = Peek::new(&value, &shape);
    let ps = peek.into_struct().unwrap();
    match ps.fields_for_serialize() {
        Err(FieldError::UnsupportedFlatten(name)) => assert_eq!(name, "u64"),
        _ => panic!("expected an unsupported-flatten error"),
    }
}

#[test]
fn skipped_field_is_listed_but_not_emitted_exactly_when_its_condition_holds() {
    let make_shape = || Shape {
        name: String::from("WithSkip"),
        layout: Layout { size: 16, align: 8 },
        ops: struct_ops(false),
        def: Def::StructKind(StructType {
            fields: vec![
                field("a", 0, u64_shape()),
                FieldDef {
                    name: String::from("opt"),
                    offset: 8,
                    flatten: false,
                    skip: SkipRule::IfScalarEq(0),
                    shape: u64_shape(),
                },
            ],
        }),
    };
    // condition holds: skipped from serialization, still listed by fields()
    let shape = make_shape();
    let v_skip = Value::StructVal(vec![Value::Scalar(1), Value::Scalar(0)]);
    let peek = Peek::new(&v_skip, &shape);
    let ps = peek.into_struct().unwrap();
    assert_eq!(ps.fields().len(), 2);
    let emitted = ps.fields_for_serialize().unwrap();
    assert_eq!(emitted.len(), 1);
    assert_eq!(emitted[0].name, "a");
    // condition fails: emitted
    let v_keep = Value::StructVal(vec![Value::Scalar(1), Value::Scalar(5)]);
    let peek = Peek::new(&v_keep, &shape);
    let ps = peek.into_struct().unwrap();
    let emitted = ps.fields_for_serialize().unwrap();
    assert_eq!(emitted.len(), 2);
    assert_eq!(emitted[1].name, "opt");
}

#[test]
fn list_equality_delegates_element_wise() {
    let shape = list_of_u64_shape();
    let a = list_value(&[1, 2, 3]);
    let b = list_value(&[1, 2, 3]);
    let shorter = list_value(&[1, 2]);
    let differs = list_value(&[1, 2, 4]);
    assert!(value_eq(&a, &b, &shape));
    assert!(!value_eq(&a, &shorter, &shape));
    assert!(!value_eq(&a, &differs, &shape));
    let empty = list_value(&[]);
    assert!(value_eq(&empty, &list_value(&[]), &shape));
}

#[test]
fn list_ordering_is_lexicographic_then_by_length() {
    let shape = list_of_u64_shape();
    assert!(matches!(
        value_cmp(&list_value(&[1, 2]), &list_value(&[1, 3]), &shape),
        Order::Less
    ));
    assert!(matches!(
        value_cmp(&list_value(&[1, 2]), &list_value(&[1, 2, 0]), &shape),
        Order::Less
    ));
    assert!(matches!(
        value_cmp(&list_value(&[1, 2]), &list_value(&[1, 2]), &shape),
        Order::Equal
    ));
    assert!(matches!(
        value_cmp(&list_value(&[2]), &list_value(&[1, 9, 9]), &shape),
        Order::Greater
    ));
    assert!(matches!(
        value_cmp(&Value::Scalar(3), &Value::Scalar(3), &u64_shape()),
        Order::Equal
    ));
    assert!(matches!(
        value_cmp(&Value::Scalar(2), &Value::Scalar(3), &u64_shape()),
        Order::Less
    ));
}

#[test]
fn default_values_compose() {
    let d = default_value(&u64_shape());
    assert!(matches!(d, Value::Scalar(0)));
    let list_default = default_value(&list_of_u64_shape());
    match list_default {
        Value::ListVal(items) => assert_eq!(items.len(), 0),
        _ => panic!("expected an empty list"),
    }
}

#[test]
fn map_entries_insert_and_overwrite_by_key() {
    let shape = map_of_tracked_shape();
    let mut builder = Partial::allocate(shape);
    let s1 = Slot::for_hash_map(String::from("k1"), tracked_shape());
    s1.fill(&mut builder, Value::Scalar(1), &tracked_shape()).unwrap();
    let s2 = Slot::for_hash_map(String::from("k2"), tracked_shape());
    s2.fill(&mut builder, Value::Scalar(2), &tracked_shape()).unwrap();
    assert_eq!(builder.destroy_count, 0);
    // overwriting destroys the old entry value first
    let s3 = Slot::for_hash_map(String::from("k1"), tracked_shape());
    s3.fill(&mut builder, Value::Scalar(9), &tracked_shape()).unwrap();
    assert_eq!(builder.destroy_count, 1);
    let built = builder.build().unwrap();
    match built {
        Value::MapVal(entries) => {
            assert_eq!(entries.len(), 2);
            assert_eq!(entries[0].key, "k1");
            assert!(matches!(entries[0].value, Value::Scalar(9)));
            assert_eq!(entries[1].key, "k2");
            assert!(matches!(entries[1].value, Value::Scalar(2)));
        },
        _ => panic!("expected a map value"),
    }
}

#[test]
fn map_abandon_counts_every_entry() {
    let shape = map_of_tracked_shape();
    let mut builder = Partial::allocate(shape);
    let s1 = Slot::for_hash_map(String::from("k1"), tracked_shape());
    s1.fill(&mut builder, Value::Scalar(1), &tracked_shape()).unwrap();
    let s2 = Slot::for_hash_map(String::from("k2"), tracked_shape());
    s2.fill(&mut builder, Value::Scalar(2), &tracked_shape()).unwrap();
    assert_eq!(builder.abandon(), 2);
}

#[test]
fn fill_from_nested_builder_relocates_the_built_value() {
    // struct Outer { p: Pair }
    let outer = Shape {
        name: String::from("OuterP"),
        layout: Layout { size: 16, align: 8 },
        ops: struct_ops(false),
        def: Def::StructKind(StructType { fields: vec![field("p", 0, pair_shape())] }),
    };
    let mut inner = Partial::allocate(pair_shape());
    let sa = inner.slot_for_field(0).unwrap();
    sa.fill(&mut inner, Value::Scalar(5), &u64_shape()).unwrap();
    let sb = inner.slot_for_field(1).unwrap();
    sb.fill(&mut inner, Value::Scalar(6), &tracked_shape()).unwrap();

    let mut builder = Partial::allocate(outer);
    let slot = builder.slot_for_field(0).unwrap();
    slot.fill_from_partial(&mut builder, inner).unwrap();
    let built = builder.build().unwrap();
    match built {
        Value::StructVal(fields) => {
            assert!(value_eq(&fields[0], &pair_value(5, 6), &pair_shape()));
        },
        _ => panic!("expected a struct value"),
    }
}

#[test]
fn fill_from_builder_into_a_map_entry_fails_explicitly() {
    let mut inner = Partial::allocate(pair_shape());
    let sa = inner.slot_for_field(0).unwrap();
    sa.fill(&mut inner, Value::Scalar(5), &u64_shape()).unwrap();
    let sb = inner.slot_for_field(1).unwrap();
    sb.fill(&mut inner, Value::Scalar(6), &tracked_shape()).unwrap();

    let map_shape = Shape {
        name: String::from("DictP"),
        layout: Layout { size: 48, align: 8 },
        ops: OpTable {
            has_eq: true,
            has_cmp: false,
            has_hash: false,
            has_debug: true,
            has_destroy: true,
            has_default: true,
        },
        def: Def::MapKind(Box::new(pair_shape())),
    };
    let mut builder = Partial::allocate(map_shape);
    let slot = Slot::for_hash_map(String::from("k"), pair_shape());
    match slot.fill_from_partial(&mut builder, inner) {
        Err(FieldError::MapFillFromBuilder) => {},
        _ => panic!("expected the map-from-builder gap to be reported"),
    }
    assert!(builder.entries.is_empty());
}

#[test]
fn struct_and_map_equality_delegate_components() {
    let shape = pair_shape();
    assert!(value_eq(&pair_value(1, 2), &pair_value(1, 2), &shape));
    assert!(!value_eq(&pair_value(1, 2), &pair_value(1, 3), &shape));

    let dict = map_of_tracked_shape();
    let m1 = Value::MapVal(vec![MapEntry { key: String::from("a"), value: Value::Scalar(1) }]);
    let m2 = Value::MapVal(vec![MapEntry { key: String::from("a"), value: Value::Scalar(1) }]);
    let m3 = Value::MapVal(vec![MapEntry { key: String::from("b"), value: Value::Scalar(1) }]);
    assert!(value_eq(&m1, &m2, &dict));
    assert!(!value_eq(&m1, &m3, &dict));
}

#[test]
fn descriptor_equality_is_structural() {
    assert!(shapely::shape::shape_eq(&pair_shape(), &pair_shape()));
    assert!(!shapely::shape::shape_eq(&pair_shape(), &u64_shape()));
    assert!(!shapely::shape::shape_eq(&u64_shape(), &tracked_shape()));
    let copy = pair_shape().duplicate();
    assert!(shapely::shape::shape_eq(&pair_shape(), &copy));
}
