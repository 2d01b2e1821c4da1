use dialect_ir::apint::APInt;
use dialect_ir::attr_interfaces::attr_cast_typed;
use dialect_ir::attribute::AttrObj;
use dialect_ir::builtin_attributes::{self, DictAttr, IntegerAttr, StringAttr, TypeAttr, UnitAttr, VecAttr};
use dialect_ir::context::Context;
use dialect_ir::dialect::{Dialect, DialectName};
use dialect_ir::identifier::Identifier;
use dialect_ir::llvm_attributes::{self, GepIndexAttr, GepIndicesAttr, ICmpPredicateAttr, IntegerOverflowFlagsAttr};
use dialect_ir::parser::parse_attr;
use dialect_ir::result::{ErrorCause, ErrorKind};
use dialect_ir::types::{IntegerType, PointerType, Signedness};

fn builtin_ctx() -> Context {
    let mut ctx = Context::new();
    builtin_attributes::register(&mut ctx);
    ctx
}

#[test]
fn interning_gives_the_same_handle() {
    let mut ctx = builtin_ctx();
    let a = IntegerType::get(&mut ctx, 64, Signedness::Signed);
    let b = IntegerType::get(&mut ctx, 64, Signedness::Signed);
    assert_eq!(a, b);
    let c = IntegerType::get(&mut ctx, 32, Signedness::Signed);
    assert_ne!(a, c);
    let d = IntegerType::get(&mut ctx, 64, Signedness::Unsigned);
    assert_ne!(a, d);
    let ptr_a = PointerType::get(&mut ctx, a);
    let ptr_b = PointerType::get(&mut ctx, b);
    assert_eq!(ptr_a, ptr_b);
}

#[test]
fn dictionary_order_does_not_matter() {
    let h = Identifier::try_new("hello").unwrap();
    let w = Identifier::try_new("world").unwrap();
    let hv = || AttrObj::new(StringAttr::new("H".to_string()));
    let wv = || AttrObj::new(StringAttr::new("W".to_string()));
    let mut d1 = DictAttr::new(vec![(h.clone(), hv()), (w.clone(), wv())]);
    let mut d2 = DictAttr::new(vec![(w.clone(), wv()), (h.clone(), hv())]);
    assert!(d1 == d2);
    d1.remove(&h);
    d2.remove(&h);
    assert!(d1 == d2);
    assert!(d1.lookup(&h).is_none());
    assert!(d1.lookup(&w).unwrap() == &wv());
}

#[test]
fn dictionary_insert_overwrites() {
    let k = Identifier::try_new("key").unwrap();
    let mut d = DictAttr::new(vec![(k.clone(), AttrObj::new(UnitAttr::new()))]);
    d.insert(&k, AttrObj::new(StringAttr::new("v".to_string())));
    assert!(d.lookup(&k).unwrap() == &AttrObj::new(StringAttr::new("v".to_string())));
    let later_wins = DictAttr::new(vec![
        (k.clone(), AttrObj::new(UnitAttr::new())),
        (k.clone(), AttrObj::new(StringAttr::new("v".to_string()))),
    ]);
    assert!(later_wins == d);
}

#[test]
fn identifier_rejects_malformed_text() {
    assert!(Identifier::try_new("9lives").is_err());
    assert!(Identifier::try_new("").is_err());
    assert!(Identifier::try_new("a.b").is_err());
    let e = Identifier::try_new("a b").err().unwrap();
    assert_eq!(e.kind, ErrorKind::InvalidArgument);
    assert_eq!(Identifier::try_new("_x9").unwrap().to_string(), "_x9");
}

#[test]
fn width_mismatch_fails_verification() {
    let mut ctx = builtin_ctx();
    let i64_ty = IntegerType::get(&mut ctx, 64, Signedness::Signed);
    let bad = IntegerAttr::new(i64_ty, APInt::from_i64(0, 32));
    let e = bad.verify(&ctx).err().unwrap();
    assert_eq!(e.kind, ErrorKind::VerificationFailed);
    assert!(matches!(e.err, ErrorCause::IntegerAttrBitwidth(_)));
    assert_eq!(
        e.disp(),
        "[<unknown>] Compilation error: verification failed.\nThe bitwidth type does not match the bitwidth of the value."
    );
    let good = IntegerAttr::new(i64_ty, APInt::from_i64(0, 64));
    assert!(good.verify(&ctx).is_ok());
    let in_vec = AttrObj::new(VecAttr::new(vec![AttrObj::new(good), AttrObj::new(bad)]));
    assert!(in_vec.verify(&ctx).is_err());
}

#[test]
fn string_escaping_round_trips() {
    let mut ctx = builtin_ctx();
    let text = "builtin.string \"hello \\\"world\\\"\"";
    let a = parse_attr(&mut ctx, text).unwrap();
    assert_eq!(a.downcast_ref::<StringAttr>().unwrap().clone().value(), "hello \"world\"");
    assert_eq!(a.disp(&ctx), text);
    let back = AttrObj::new(StringAttr::new("a\\b".to_string()));
    assert_eq!(back.disp(&ctx), "builtin.string \"a\\\\b\"");
    let printed = back.disp(&ctx);
    let again = parse_attr(&mut ctx, &printed).unwrap();
    assert!(again == back);
}

#[test]
fn unterminated_string_fails() {
    let mut ctx = builtin_ctx();
    let e = parse_attr(&mut ctx, "builtin.string \"abc").err().unwrap();
    assert_eq!(
        e.disp(),
        "[<in-memory>: line: 1, column: 20] Compilation error: invalid input program.\nUnterminated string literal"
    );
}

#[test]
fn unregistered_dialect_then_registered() {
    let mut ctx = Context::new();
    let e = parse_attr(&mut ctx, "builtin.unit").err().unwrap();
    assert_eq!(
        e.disp(),
        "[<in-memory>: line: 1, column: 1] Compilation error: invalid input program.\nUnregistered dialect builtin"
    );
    builtin_attributes::register(&mut ctx);
    let a = parse_attr(&mut ctx, "builtin.unit").unwrap();
    assert!(a.is::<UnitAttr>());
    let e = parse_attr(&mut ctx, "builtin.nothing").err().unwrap();
    assert_eq!(
        e.disp(),
        "[<in-memory>: line: 1, column: 1] Compilation error: invalid input program.\nUnregistered attribute builtin.nothing"
    );
}

#[test]
fn typed_interface_query() {
    let mut ctx = builtin_ctx();
    let ty = IntegerType::get(&mut ctx, 16, Signedness::Unsigned);
    let int_attr = AttrObj::new(IntegerAttr::new(ty, APInt::from_i64(7, 16)));
    assert_eq!(attr_cast_typed(&ctx, &int_attr), Some(ty));
    let ty_attr = AttrObj::new(TypeAttr::new(ty));
    assert_eq!(attr_cast_typed(&ctx, &ty_attr), Some(ty));
    let s = AttrObj::new(StringAttr::new("x".to_string()));
    assert_eq!(attr_cast_typed(&ctx, &s), None);
    let bare = Context::new();
    assert_eq!(attr_cast_typed(&bare, &ty_attr), None);
}

#[test]
fn integer_round_trips_signed_and_unsigned() {
    let mut ctx = builtin_ctx();
    let text = "builtin.integer <-5: si8>";
    let a = parse_attr(&mut ctx, text).unwrap();
    let v = a.downcast_ref::<IntegerAttr>().unwrap().value();
    assert_eq!(v.to_string_decimal(false), vec!['2', '5', '1']);
    assert_eq!(a.disp(&ctx), text);
    assert!(a.verify(&ctx).is_ok());
    let u = parse_attr(&mut ctx, "builtin.integer <255: ui8>").unwrap();
    assert_eq!(u.disp(&ctx), "builtin.integer <255: ui8>");
    let s = parse_attr(&mut ctx, "builtin.integer < +7 : i3 >").unwrap();
    assert_eq!(s.disp(&ctx), "builtin.integer <7: i3>");
}

#[test]
fn integer_literal_out_of_range_fails() {
    let mut ctx = builtin_ctx();
    let e = parse_attr(&mut ctx, "builtin.integer <256: ui8>").err().unwrap();
    assert_eq!(
        e.disp(),
        "[<in-memory>: line: 1, column: 27] Compilation error: invalid input program.\nInteger literal 256 does not fit in 8 bits"
    );
    let e = parse_attr(&mut ctx, "builtin.integer <1: i0>").err().unwrap();
    assert!(e.disp().ends_with("Unsupported bit width 0"));
    let e = parse_attr(&mut ctx, "builtin.integer <340282366920938463463374607431768211456: ui128>").err().unwrap();
    assert!(e.disp().ends_with("does not fit in 128 bits"));
    let e = parse_attr(&mut ctx, "builtin.integer <1: si64> x").err().unwrap();
    assert!(e.disp().ends_with("Unexpected trailing input"));
}

#[test]
fn type_attribute_round_trips() {
    let mut ctx = builtin_ctx();
    llvm_attributes::register(&mut ctx);
    let i8_ty = IntegerType::get(&mut ctx, 8, Signedness::Signless);
    let ptr = PointerType::get(&mut ctx, i8_ty);
    let a = AttrObj::new(TypeAttr::new(ptr));
    assert_eq!(a.disp(&ctx), "builtin.type llvm.ptr <builtin.integer i8>");
    let printed = a.disp(&ctx);
    let back = parse_attr(&mut ctx, &printed).unwrap();
    assert!(back == a);
}

#[test]
fn llvm_attributes_parse_and_print() {
    let mut ctx = builtin_ctx();
    llvm_attributes::register(&mut ctx);
    let f = parse_attr(&mut ctx, "llvm.integer_overlflow_flags nsw").unwrap();
    assert!(f == AttrObj::new(IntegerOverflowFlagsAttr::Nsw));
    assert_eq!(f.disp(&ctx), "llvm.integer_overlflow_flags nsw");
    let p = parse_attr(&mut ctx, "llvm.icmp_predicate sle").unwrap();
    assert!(p == AttrObj::new(ICmpPredicateAttr::SLE));
    assert_eq!(AttrObj::new(ICmpPredicateAttr::UGE).disp(&ctx), "llvm.icmp_predicate uge");
    let e = parse_attr(&mut ctx, "llvm.icmp_predicate lt").err().unwrap();
    assert!(e.disp().ends_with("Expected an integer comparison predicate"));
}

#[test]
fn gep_indices_round_trip() {
    let mut ctx = builtin_ctx();
    llvm_attributes::register(&mut ctx);
    let g = AttrObj::new(GepIndicesAttr(vec![GepIndexAttr::Constant(0), GepIndexAttr::OperandIdx(2)]));
    let text = g.disp(&ctx);
    assert_eq!(text, "llvm.gep_indices [Constant(0), OperandIdx(2)]");
    let back = parse_attr(&mut ctx, &text).unwrap();
    assert!(back == g);
    let e = parse_attr(&mut ctx, "llvm.gep_indices [Index(1)]").err().unwrap();
    assert!(e.disp().ends_with("Expected Constant or OperandIdx"));
}

#[test]
fn vec_attribute_prints_elements() {
    let ctx = builtin_ctx();
    let v = AttrObj::new(VecAttr::new(vec![
        AttrObj::new(UnitAttr::new()),
        AttrObj::new(StringAttr::new("x".to_string())),
    ]));
    assert_eq!(v.disp(&ctx), "builtin.vec [builtin.unit, builtin.string \"x\"]");
}

#[test]
fn vec_attribute_round_trips() {
    let mut ctx = builtin_ctx();
    let text = "builtin.vec [builtin.unit, builtin.vec [], builtin.integer <3: i4>]";
    let v = parse_attr(&mut ctx, text).unwrap();
    assert_eq!(v.disp(&ctx), text);
    assert_eq!(v.downcast_ref::<VecAttr>().unwrap().0.len(), 3);
    let spaced = parse_attr(&mut ctx, "builtin.vec [ builtin.unit ,builtin.unit ]").unwrap();
    assert_eq!(spaced.disp(&ctx), "builtin.vec [builtin.unit, builtin.unit]");
    let e = parse_attr(&mut ctx, "builtin.vec [builtin.unit builtin.unit]").err().unwrap();
    assert_eq!(
        e.disp(),
        "[<in-memory>: line: 1, column: 27] Compilation error: invalid input program.\nExpected `,` or `]`"
    );
}

#[test]
fn registering_twice_keeps_the_first() {
    let mut ctx = builtin_ctx();
    builtin_attributes::register(&mut ctx);
    assert!(ctx.is_registered(&DialectName::new("builtin")));
    let d = Dialect::get_ref(&ctx, DialectName::new("builtin")).unwrap();
    assert_eq!(d.get_name().disp(), "builtin");
}

#[test]
fn error_location_counts_lines() {
    let mut ctx = builtin_ctx();
    let e = parse_attr(&mut ctx, "builtin.integer\n  <1: q8>").err().unwrap();
    assert_eq!(
        e.disp(),
        "[<in-memory>: line: 2, column: 7] Compilation error: invalid input program.\nExpected si, ui or i"
    );
}

#[test]
fn dict_attribute_round_trips() {
    let mut ctx = builtin_ctx();
    let hello = Identifier::try_new("hello").unwrap();
    let world = Identifier::try_new("world").unwrap();
    let d = AttrObj::new(DictAttr::new(vec![
        (world.clone(), AttrObj::new(StringAttr::new("W".to_string()))),
        (hello.clone(), AttrObj::new(UnitAttr::new())),
    ]));
    let text = d.disp(&ctx);
    assert_eq!(text, "builtin.dict {hello: builtin.unit, world: builtin.string \"W\"}");
    let back = parse_attr(&mut ctx, &text).unwrap();
    assert!(back == d);
    assert_eq!(back.disp(&ctx), text);
    let empty = parse_attr(&mut ctx, "builtin.dict {}").unwrap();
    assert!(empty == AttrObj::new(DictAttr::new(vec![])));
    let unsorted = parse_attr(&mut ctx, "builtin.dict { world : builtin.unit , hello: builtin.unit }").unwrap();
    assert_eq!(unsorted.disp(&ctx), "builtin.dict {hello: builtin.unit, world: builtin.unit}");
    let e = parse_attr(&mut ctx, "builtin.dict {a builtin.unit}").err().unwrap();
    assert!(e.disp().ends_with("Expected `:`"));
}

#[test]
fn float_kind_stays_unregistered() {
    let mut ctx = builtin_ctx();
    let e = parse_attr(&mut ctx, "builtin.float <unimplemented>").err().unwrap();
    assert!(e.disp().ends_with("Unregistered attribute builtin.float"));
}

#[test]
fn operation_capability_query() {
    use_llvm_return_capability();
}

fn use_llvm_return_capability() {
    let mut ctx = builtin_ctx();
    llvm_attributes::register(&mut ctx);
    let i8_ty = IntegerType::get(&mut ctx, 8, Signedness::Signless);
    let r = dialect_ir::llvm_ops::ReturnOp::new_unlinked(dialect_ir::operation::Value::Argument { index: 0, ty: i8_ty });
    assert!(dialect_ir::op_interfaces::op_offers(&ctx, r.get_operation(), dialect_ir::context::OpInterface::IsTerminator));
    assert!(!dialect_ir::op_interfaces::op_offers(&ctx, r.get_operation(), dialect_ir::context::OpInterface::BinArithOp));
}

#[test]
fn wide_integers_round_trip() {
    let mut ctx = builtin_ctx();
    for text in [
        "builtin.integer <-170141183460469231731687303715884105728: si128>",
        "builtin.integer <340282366920938463463374607431768211455: ui128>",
        "builtin.integer <123456789012345678901234567890: i200>",
        "builtin.integer <-1: si65>",
    ] {
        let a = parse_attr(&mut ctx, text).unwrap();
        assert_eq!(a.disp(&ctx), text);
        assert!(a.verify(&ctx).is_ok());
    }
    let si128 = IntegerType::get(&mut ctx, 128, Signedness::Signed);
    let minus_one = AttrObj::new(IntegerAttr::new(si128, APInt::from_i64(-1, 128)));
    assert_eq!(minus_one.disp(&ctx), "builtin.integer <-1: si128>");
    let ui128 = IntegerType::get(&mut ctx, 128, Signedness::Unsigned);
    let all_ones = AttrObj::new(IntegerAttr::new(ui128, APInt::from_i64(-1, 128)));
    assert_eq!(all_ones.disp(&ctx), "builtin.integer <340282366920938463463374607431768211455: ui128>");
    let min = AttrObj::new(IntegerAttr::new(si128, APInt::from_i64(i64::MIN, 128)));
    assert_eq!(min.disp(&ctx), "builtin.integer <-9223372036854775808: si128>");
    let narrow = APInt::from_i64(-1, 4);
    assert_eq!(narrow.to_string_decimal(false), vec!['1', '5']);
}

#[test]
fn dictionary_lookup_mut_changes_in_place() {
    let k = Identifier::try_new("key").unwrap();
    let mut d = DictAttr::new(vec![(k.clone(), AttrObj::new(UnitAttr::new()))]);
    if let Some(v) = d.lookup_mut(&k) {
        *v = AttrObj::new(StringAttr::new("changed".to_string()));
    }
    assert!(d.lookup(&k).unwrap() == &AttrObj::new(StringAttr::new("changed".to_string())));
    assert!(d.lookup_mut(&Identifier::try_new("other").unwrap()).is_none());
}
