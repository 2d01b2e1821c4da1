use dialect_ir::apint::APInt;
use dialect_ir::attr_interfaces::attr_cast_typed;
use dialect_ir::attribute::AttrObj;
use dialect_ir::builtin_attributes::{self, DictAttr, IntegerAttr, StringAttr, TypeAttr, VecAttr};
use dialect_ir::context::Context;
use dialect_ir::identifier::Identifier;
use dialect_ir::parser::parse_attr;
use dialect_ir::types::{IntegerType, Signedness};

fn string_attr(s: &str) -> AttrObj {
    AttrObj::new(StringAttr::new(s.to_string()))
}

#[test]
fn test_integer_attributes() {
    let mut ctx = Context::new();
    builtin_attributes::register(&mut ctx);

    let i64_ty = IntegerType::get(&mut ctx, 64, Signedness::Signed);

    let int64_0_ptr = AttrObj::new(IntegerAttr::new(i64_ty, APInt::from_i64(0, 64)));
    let int64_1_ptr = AttrObj::new(IntegerAttr::new(i64_ty, APInt::from_i64(15, 64)));
    assert!(int64_0_ptr.is::<IntegerAttr>() && int64_0_ptr != int64_1_ptr);
    let int64_0_ptr2 = AttrObj::new(IntegerAttr::new(i64_ty, APInt::from_i64(0, 64)));
    assert!(int64_0_ptr == int64_0_ptr2);
    assert_eq!(int64_0_ptr.disp(&ctx), "builtin.integer <0: si64>");
    assert_eq!(int64_1_ptr.disp(&ctx), "builtin.integer <15: si64>");
    assert!(
        int64_0_ptr.downcast_ref::<IntegerAttr>().unwrap().value().is_zero()
            && int64_1_ptr.downcast_ref::<IntegerAttr>().unwrap().value().to_string_decimal(true)
                == vec!['1', '5']
    );

    let attr_input = "builtin.integer <0: builtin.unit>";
    let parse_err = parse_attr(&mut ctx, attr_input)
        .err()
        .expect("Integer attribute with non-integer type shouldn't be parsed successfully");
    assert_eq!(
        parse_err.disp(),
        "[<in-memory>: line: 1, column: 21] Compilation error: invalid input program.\nExpected si, ui or i"
    );
}

#[test]
fn test_string_attributes() {
    let mut ctx = Context::new();
    builtin_attributes::register(&mut ctx);

    let str_0_ptr = string_attr("hello");
    let str_1_ptr = string_attr("world");
    assert!(str_0_ptr.is::<StringAttr>() && str_0_ptr != str_1_ptr);
    let str_0_ptr2 = string_attr("hello");
    assert!(str_0_ptr == str_0_ptr2);
    assert_eq!(str_0_ptr.disp(&ctx), "builtin.string \"hello\"");
    assert_eq!(str_1_ptr.disp(&ctx), "builtin.string \"world\"");
    assert_eq!(str_0_ptr.downcast_ref::<StringAttr>().unwrap().clone().value(), "hello");
    assert_eq!(str_1_ptr.downcast_ref::<StringAttr>().unwrap().clone().value(), "world");

    let attr_input = "builtin.string \"hello\"";
    let attr = parse_attr(&mut ctx, attr_input).unwrap();
    assert_eq!(attr.disp(&ctx), attr_input);

    let attr_input = "builtin.string \"hello \\\"world\\\"\"";
    let attr_parsed = parse_attr(&mut ctx, attr_input).unwrap();
    assert_eq!(attr_parsed.disp(&ctx), attr_input);

    // Unsupported escaped character.
    let res = parse_attr(&mut ctx, "builtin.string \"hello \\k \"");
    let err_msg = res.err().unwrap().disp();
    assert_eq!(
        err_msg,
        "[<in-memory>: line: 1, column: 24] Compilation error: invalid input program.\nUnexpected escaped character \\k"
    );
}

#[test]
fn test_dictionary_attributes() {
    let hello_id = Identifier::try_new("hello").unwrap();
    let world_id = Identifier::try_new("world").unwrap();

    let dict1 = AttrObj::new(DictAttr::new(vec![
        (hello_id.clone(), string_attr("hello")),
        (world_id.clone(), string_attr("world")),
    ]));
    let dict2 = AttrObj::new(DictAttr::new(vec![(hello_id.clone(), string_attr("hello"))]));
    let dict1_rev = AttrObj::new(DictAttr::new(vec![
        (world_id.clone(), string_attr("world")),
        (hello_id.clone(), string_attr("hello")),
    ]));
    assert!(dict1 != dict2);
    assert!(dict1 == dict1_rev);

    let mut dict1_attr = dict1.downcast::<DictAttr>().unwrap();
    let mut dict2_attr = dict2.downcast::<DictAttr>().unwrap();
    assert!(dict1_attr.lookup(&hello_id).unwrap() == &string_attr("hello"));
    assert!(dict1_attr.lookup(&world_id).unwrap() == &string_attr("world"));
    assert!(dict1_attr
        .lookup(&Identifier::try_new("hello_world").unwrap())
        .is_none());
    dict2_attr.insert(&world_id, string_attr("world"));
    assert!(dict1_attr == dict2_attr);

    dict1_attr.remove(&hello_id);
    dict2_attr.remove(&hello_id);
    let dict1 = AttrObj::new(dict1_attr);
    let dict2 = AttrObj::new(dict2_attr);
    assert!(dict1 == dict2);
}

#[test]
fn test_vec_attributes() {
    let vec_attr = AttrObj::new(VecAttr::new(vec![string_attr("hello"), string_attr("world")]));
    let vec = vec_attr.downcast_ref::<VecAttr>().unwrap();
    assert!(vec.0.len() == 2 && vec.0[0] == string_attr("hello") && vec.0[1] == string_attr("world"));
}

#[test]
fn test_type_attributes() {
    let mut ctx = Context::new();
    builtin_attributes::register(&mut ctx);

    let ty = IntegerType::get(&mut ctx, 64, Signedness::Signed);
    let ty_attr = AttrObj::new(TypeAttr::new(ty));

    let ty_interface = attr_cast_typed(&ctx, &ty_attr).unwrap();
    assert!(ty_interface == ty);

    let ty_attr = ty_attr.disp(&ctx);
    let ty_attr_parsed = parse_attr(&mut ctx, &ty_attr).unwrap();
    assert_eq!(ty_attr_parsed.disp(&ctx), ty_attr);
}
